//! The step inspector's Matrix pane: a matrix job's axes, its strategy
//! options, and its expanded combinations as a grid.

use vstd::prelude::*;
use crate::text::{chars_of, chars_eq, decimal, owned, push_all, push_decimal, push_str, string_of, strings_view, lemma_strings_view_push};
use crate::style::{Role, Tone, lines_view, push_blank, push_line, single, spans_view};
use crate::models::{JobStatus, Workflow, first_answering, find_answering};
use crate::timing::{join_with, status_tone};
use crate::job_detail::{YamlScalar, scalar_text, scalar_text_spec};

verus! {

broadcast use vstd::string::group_string_axioms;

/// A matrix axis as the pane lists it: its name and the texts of its
/// values.
pub struct MatrixAxis {
    pub name: String,
    pub values: Vec<String>,
}

/// A matrix written out in the workflow: its axes in declared order, its
/// own `max-parallel`/`fail-fast`, and how many `exclude:` entries it has.
pub struct MatrixConfig {
    pub axes: Vec<MatrixAxis>,
    pub max_parallel: Option<u64>,
    pub fail_fast: Option<bool>,
    pub exclude_count: usize,
}

/// A job's `strategy.matrix`: written out, or a runtime expression (with
/// its text when there is one).
pub enum MatrixDef {
    Config(MatrixConfig),
    Expression(Option<String>),
}

/// A job's `strategy:` block.
pub struct Strategy {
    pub matrix: Option<MatrixDef>,
    pub max_parallel: Option<u64>,
    pub fail_fast: Option<bool>,
}

/// One expanded combination: its key/value pairs and whether an
/// `include:` entry added it. A combination maps each key once
/// (`Combination::wf`).
pub struct Combination {
    pub values: Vec<(String, YamlScalar)>,
    pub is_included: bool,
}

/// Whether no two pairs share a key.
pub open spec fn keys_unique(values: Seq<(String, YamlScalar)>) -> bool {
    forall|i: int, j: int| 0 <= i < j < values.len() ==> #[trigger] values[i].0@ != #[trigger] values[j].0@
}

impl Combination {
    /// Each key appears once.
    pub open spec fn wf(&self) -> bool {
        keys_unique(self.values@)
    }
}

/// Whether every combination of an expansion maps each key once.
pub open spec fn expansion_wf(expansion: Result<Vec<Combination>, String>) -> bool {
    expansion matches Ok(v) ==> forall|c: int| 0 <= c < v@.len() ==> (#[trigger] v@[c]).wf()
}

/// Whether `c` maps each key once.
pub fn has_unique_keys(c: &Combination) -> (r: bool)
    ensures
        r == c.wf(),
{
    let n = c.values.len();
    let mut i: usize = 0;
    while i < n
        invariant
            n == c.values@.len(),
            i <= n,
            forall|a: int, b: int| 0 <= a < b < n && a < i ==> #[trigger] c.values@[a].0@ != #[trigger] c.values@[b].0@,
        decreases n - i,
    {
        let ki = chars_of(c.values[i].0.as_str());
        let mut j: usize = i + 1;
        while j < n
            invariant
                n == c.values@.len(),
                i < n,
                i < j <= n,
                ki@ == c.values@[i as int].0@,
                forall|a: int, b: int| 0 <= a < b < n && a < i ==> #[trigger] c.values@[a].0@ != #[trigger] c.values@[b].0@,
                forall|b: int| i < b < j ==> c.values@[i as int].0@ != #[trigger] c.values@[b].0@,
            decreases n - j,
        {
            let kj = chars_of(c.values[j].0.as_str());
            if chars_eq(ki.as_slice(), kj.as_slice()) {
                return false;
            }
            j += 1;
        }
        i += 1;
    }
    true
}

/// Lexicographic order on character sequences (code point by code point,
/// a proper prefix first), which is the order of `String`'s `Ord`.
pub open spec fn lex_lt(a: Seq<char>, b: Seq<char>) -> bool
    decreases a.len(),
{
    if a.len() == 0 {
        b.len() > 0
    } else if b.len() == 0 {
        false
    } else if a[0] != b[0] {
        (a[0] as int) < (b[0] as int)
    } else {
        lex_lt(a.drop_first(), b.drop_first())
    }
}

pub proof fn lemma_lex_irreflexive(a: Seq<char>)
    ensures
        !lex_lt(a, a),
    decreases a.len(),
{
    if a.len() > 0 {
        lemma_lex_irreflexive(a.drop_first());
    }
}

pub proof fn lemma_lex_total(a: Seq<char>, b: Seq<char>)
    ensures
        a == b || lex_lt(a, b) || lex_lt(b, a),
    decreases a.len(),
{
    if a.len() > 0 && b.len() > 0 && a[0] == b[0] {
        lemma_lex_total(a.drop_first(), b.drop_first());
        if a.drop_first() == b.drop_first() {
            assert(a =~= seq![a[0]] + a.drop_first());
            assert(b =~= seq![b[0]] + b.drop_first());
        }
    } else if a.len() > 0 && b.len() > 0 {
        assert((a[0] as int) != (b[0] as int));
    } else if a.len() == 0 && b.len() == 0 {
        assert(a =~= b);
    }
}

pub proof fn lemma_lex_asym(a: Seq<char>, b: Seq<char>)
    requires
        lex_lt(a, b),
    ensures
        !lex_lt(b, a),
    decreases a.len(),
{
    if a.len() > 0 && b.len() > 0 && a[0] == b[0] {
        lemma_lex_asym(a.drop_first(), b.drop_first());
    }
}

pub proof fn lemma_lex_trans(a: Seq<char>, b: Seq<char>, c: Seq<char>)
    requires
        lex_lt(a, b),
        lex_lt(b, c),
    ensures
        lex_lt(a, c),
    decreases a.len(),
{
    if a.len() > 0 && b.len() > 0 && c.len() > 0 {
        if a[0] == b[0] && b[0] == c[0] {
            lemma_lex_trans(a.drop_first(), b.drop_first(), c.drop_first());
        }
    }
}

/// Whether `a` comes before `b` in lexicographic order.
pub fn lex_less(a: &[char], b: &[char]) -> (r: bool)
    ensures
        r == lex_lt(a@, b@),
{
    let mut i: usize = 0;
    assert(a@.skip(0) =~= a@);
    assert(b@.skip(0) =~= b@);
    while i < a.len() && i < b.len() && a[i] == b[i]
        invariant
            i <= a.len(),
            i <= b.len(),
            lex_lt(a@, b@) == lex_lt(a@.skip(i as int), b@.skip(i as int)),
        decreases a.len() - i,
    {
        assert(a@.skip(i as int).drop_first() =~= a@.skip(i + 1));
        assert(b@.skip(i as int).drop_first() =~= b@.skip(i + 1));
        i += 1;
    }
    if i == a.len() {
        i < b.len()
    } else if i == b.len() {
        false
    } else {
        a[i] < b[i]
    }
}

/// Whether `s` is strictly increasing in lexicographic order.
pub open spec fn strictly_sorted(s: Seq<Seq<char>>) -> bool {
    forall|i: int, j: int| 0 <= i < j < s.len() ==> lex_lt(#[trigger] s[i], #[trigger] s[j])
}

/// Whether some combination has the key `k`.
pub open spec fn holds_key(combos: Seq<Seq<Seq<char>>>, k: Seq<char>) -> bool {
    exists|c: int| 0 <= c < combos.len() && (#[trigger] combos[c]).contains(k)
}

/// Whether `k` is a key of some combination and not an axis.
pub open spec fn is_extra_key(axes: Seq<Seq<char>>, combos: Seq<Seq<Seq<char>>>, k: Seq<char>) -> bool {
    !axes.contains(k) && exists|c: int| 0 <= c < combos.len() && (#[trigger] combos[c]).contains(k)
}

/// The column order of the combination grid: the axes as declared, then
/// the keys that only `include:` entries bring, sorted and without repeats.
pub open spec fn key_order_ok(order: Seq<Seq<char>>, axes: Seq<Seq<char>>, combos: Seq<Seq<Seq<char>>>) -> bool {
    let extra = order.skip(axes.len() as int);
    &&& axes.len() <= order.len()
    &&& order.take(axes.len() as int) == axes
    &&& strictly_sorted(extra)
    &&& forall|k: Seq<char>| extra.contains(k) <==> is_extra_key(axes, combos, k)
}

pub proof fn lemma_key_order_unique(a: Seq<Seq<char>>, b: Seq<Seq<char>>, axes: Seq<Seq<char>>, combos: Seq<Seq<Seq<char>>>)
    requires
        key_order_ok(a, axes, combos),
        key_order_ok(b, axes, combos),
    ensures
        a == b,
{
    let ea = a.skip(axes.len() as int);
    let eb = b.skip(axes.len() as int);
    lemma_sorted_same_set_equal(ea, eb);
    assert(a =~= axes + ea);
    assert(b =~= axes + eb);
}

/// The grid's columns do not depend on how the combinations, or the keys
/// inside each, are listed: two expansions that hold the same keys give
/// the same columns.
pub proof fn law_key_order_ignores_listing(
    axes: Seq<Seq<char>>,
    c1: Seq<Seq<Seq<char>>>,
    c2: Seq<Seq<Seq<char>>>,
    o1: Seq<Seq<char>>,
    o2: Seq<Seq<char>>,
)
    requires
        key_order_ok(o1, axes, c1),
        key_order_ok(o2, axes, c2),
        forall|k: Seq<char>| #[trigger] holds_key(c1, k) <==> holds_key(c2, k),
    ensures
        o1 == o2,
{
    assert forall|k: Seq<char>| is_extra_key(axes, c1, k) <==> is_extra_key(axes, c2, k) by {
        assert(holds_key(c1, k) <==> holds_key(c2, k));
    }
    assert(key_order_ok(o2, axes, c1));
    lemma_key_order_unique(o1, o2, axes, c1);
}

/// Two strictly sorted sequences with the same elements are equal.
pub proof fn lemma_sorted_same_set_equal(a: Seq<Seq<char>>, b: Seq<Seq<char>>)
    requires
        strictly_sorted(a),
        strictly_sorted(b),
        forall|k: Seq<char>| a.contains(k) <==> b.contains(k),
    ensures
        a == b,
    decreases a.len() + b.len(),
{
    if a.len() == 0 {
        if b.len() > 0 {
            assert(b.contains(b[0]));
        }
        assert(a =~= b);
    } else if b.len() == 0 {
        assert(a.contains(a[0]));
    } else {
        // the first elements are the least of each, so they agree
        assert(a.contains(a[0]));
        assert(b.contains(b[0]));
        let ia = choose|i: int| 0 <= i < b.len() && b[i] == a[0];
        let ib = choose|i: int| 0 <= i < a.len() && a[i] == b[0];
        if ib > 0 {
            assert(lex_lt(a[0], a[ib]));
            if ia > 0 {
                assert(lex_lt(b[0], b[ia]));
                lemma_lex_asym(a[0], b[0]);
            }
        } else if ia > 0 {
            assert(lex_lt(b[0], b[ia]));
        }
        if ia > 0 && ib > 0 {
            assert(false);
        }
        assert(a[0] == b[0]);
        let ra = a.drop_first();
        let rb = b.drop_first();
        assert forall|k: Seq<char>| ra.contains(k) <==> rb.contains(k) by {
            if ra.contains(k) {
                let i = choose|i: int| 0 <= i < ra.len() && ra[i] == k;
                assert(a[i + 1] == k);
                assert(lex_lt(a[0], k));
                lemma_lex_irreflexive(k);
                assert(b.contains(k));
                let j = choose|j: int| 0 <= j < b.len() && b[j] == k;
                assert(j != 0);
                assert(rb[j - 1] == k);
            }
            if rb.contains(k) {
                let i = choose|i: int| 0 <= i < rb.len() && rb[i] == k;
                assert(b[i + 1] == k);
                assert(lex_lt(b[0], k));
                lemma_lex_irreflexive(k);
                assert(a.contains(k));
                let j = choose|j: int| 0 <= j < a.len() && a[j] == k;
                assert(j != 0);
                assert(ra[j - 1] == k);
            }
        }
        assert forall|i: int, j: int| 0 <= i < j < ra.len() implies lex_lt(#[trigger] ra[i], #[trigger] ra[j]) by {
            assert(ra[i] == a[i + 1] && ra[j] == a[j + 1]);
        }
        assert forall|i: int, j: int| 0 <= i < j < rb.len() implies lex_lt(#[trigger] rb[i], #[trigger] rb[j]) by {
            assert(rb[i] == b[i + 1] && rb[j] == b[j + 1]);
        }
        lemma_sorted_same_set_equal(ra, rb);
        assert(a =~= seq![a[0]] + ra);
        assert(b =~= seq![b[0]] + rb);
    }
}

spec fn chars_view(v: Seq<Vec<char>>) -> Seq<Seq<char>> {
    v.map_values(|x: Vec<char>| x@)
}

proof fn lemma_chars_view_push(v: Seq<Vec<char>>, x: Vec<char>)
    ensures
        chars_view(v.push(x)) == chars_view(v).push(x@),
{
    assert(chars_view(v.push(x)) =~= chars_view(v).push(x@));
}

proof fn lemma_take_push<T>(s: Seq<T>, i: int)
    requires
        0 <= i < s.len(),
    ensures
        s.take(i + 1) == s.take(i).push(s[i]),
{
    assert(s.take(i + 1) =~= s.take(i).push(s[i]));
}

fn contains_chars(list: &Vec<Vec<char>>, k: &[char]) -> (r: bool)
    ensures
        r == chars_view(list@).contains(k@),
{
    let mut i: usize = 0;
    while i < list.len()
        invariant
            i <= list.len(),
            forall|j: int| 0 <= j < i ==> list@[j]@ != k@,
        decreases list.len() - i,
    {
        if chars_eq(list[i].as_slice(), k) {
            assert(chars_view(list@)[i as int] == k@);
            return true;
        }
        i += 1;
    }
    proof {
        if chars_view(list@).contains(k@) {
            let j = choose|j: int| 0 <= j < chars_view(list@).len() && chars_view(list@)[j] == k@;
            assert(list@[j]@ == k@);
        }
    }
    false
}

/// Inserts `k` (not yet present) into the strictly sorted `list`.
fn insert_sorted(list: &mut Vec<Vec<char>>, k: Vec<char>)
    requires
        strictly_sorted(chars_view(old(list)@)),
        !chars_view(old(list)@).contains(k@),
    ensures
        strictly_sorted(chars_view(final(list)@)),
        forall|x: Seq<char>| chars_view(final(list)@).contains(x) <==> (chars_view(old(list)@).contains(x) || x == k@),
{
    let ghost old_v = chars_view(list@);
    let mut i: usize = 0;
    while i < list.len() && lex_less(list[i].as_slice(), k.as_slice())
        invariant
            i <= list.len(),
            old_v == chars_view(list@),
            forall|j: int| 0 <= j < i ==> lex_lt(old_v[j], k@),
        decreases list.len() - i,
    {
        i += 1;
    }
    proof {
        if i < list.len() {
            assert(old_v[i as int] != k@) by {
                assert(!old_v.contains(k@));
                if old_v[i as int] == k@ {
                    assert(old_v.contains(k@));
                }
            }
            lemma_lex_total(old_v[i as int], k@);
        }
    }
    list.insert(i, k);
    let ghost nv = chars_view(list@);
    proof {
        assert(nv =~= old_v.insert(i as int, k@));
        assert forall|a: int, b: int| 0 <= a < b < nv.len() implies lex_lt(#[trigger] nv[a], #[trigger] nv[b]) by {
            if b < i {
                assert(nv[a] == old_v[a] && nv[b] == old_v[b]);
            } else if b == i {
                assert(nv[a] == old_v[a]);
            } else if a == i {
                assert(nv[b] == old_v[b - 1]);
                if b - 1 > i {
                    assert(lex_lt(old_v[i as int], old_v[b - 1]));
                    lemma_lex_trans(k@, old_v[i as int], old_v[b - 1]);
                }
            } else if a < i {
                assert(nv[a] == old_v[a] && nv[b] == old_v[b - 1]);
                if a < b - 1 {
                } else {
                    assert(a == b - 1);
                }
                assert(lex_lt(old_v[a], k@));
                if b - 1 > a {
                    assert(lex_lt(old_v[a], old_v[b - 1]));
                }
            } else {
                assert(nv[a] == old_v[a - 1] && nv[b] == old_v[b - 1]);
            }
        }
        assert forall|x: Seq<char>| nv.contains(x) <==> (old_v.contains(x) || x == k@) by {
            if nv.contains(x) {
                let j = choose|j: int| 0 <= j < nv.len() && nv[j] == x;
                if j < i {
                    assert(old_v[j] == x);
                } else if j > i {
                    assert(old_v[j - 1] == x);
                }
            }
            if old_v.contains(x) {
                let j = choose|j: int| 0 <= j < old_v.len() && old_v[j] == x;
                if j < i {
                    assert(nv[j] == x);
                } else {
                    assert(nv[j + 1] == x);
                }
            }
            if x == k@ {
                assert(nv[i as int] == x);
            }
        }
    }
}

/// Whether `x` is a key of one of the first `c` combinations.
pub open spec fn in_prev(cv: Seq<Seq<Seq<char>>>, c: int, x: Seq<char>) -> bool {
    exists|d: int| 0 <= d < c && (#[trigger] cv[d]).contains(x)
}

/// Whether `x` is among the first `j` keys.
pub open spec fn in_prefix(kv: Seq<Seq<char>>, j: int, x: Seq<char>) -> bool {
    exists|t: int| 0 <= t < j && #[trigger] kv[t] == x
}

/// The keys of a combination's values, in order.
pub open spec fn pair_keys(v: Seq<(String, YamlScalar)>) -> Seq<Seq<char>> {
    v.map_values(|p: (String, YamlScalar)| p.0@)
}

/// The keys of each combination.
pub open spec fn combo_keys_view(combos: Seq<Combination>) -> Seq<Seq<Seq<char>>> {
    combos.map_values(|c: Combination| pair_keys(c.values@))
}

/// The names of the axes, in declared order.
pub open spec fn axis_names(axes: Seq<MatrixAxis>) -> Seq<Seq<char>> {
    axes.map_values(|a: MatrixAxis| a.name@)
}

pub fn matrix_key_order(axes: &Vec<MatrixAxis>, combos: &Vec<Combination>) -> (order: Vec<String>)
    ensures
        key_order_ok(strings_view(order@), axis_names(axes@), combo_keys_view(combos@)),
{
    let ghost av = axis_names(axes@);
    let ghost cv = combo_keys_view(combos@);
    let mut axis_chars: Vec<Vec<char>> = Vec::new();
    let mut a: usize = 0;
    while a < axes.len()
        invariant
            a <= axes.len(),
            av == axis_names(axes@),
            chars_view(axis_chars@) == av.take(a as int),
        decreases axes.len() - a,
    {
        assert(av[a as int] == axes@[a as int].name@);
        let x = chars_of(axes[a].name.as_str());
        proof {
            lemma_chars_view_push(axis_chars@, x);
            lemma_take_push(av, a as int);
        }
        axis_chars.push(x);
        a += 1;
    }
    assert(av.take(axes.len() as int) =~= av);
    let mut extra: Vec<Vec<char>> = Vec::new();
    let mut c: usize = 0;
    while c < combos.len()
        invariant
            c <= combos.len(),
            av == axis_names(axes@),
            cv == combo_keys_view(combos@),
            chars_view(axis_chars@) == av,
            strictly_sorted(chars_view(extra@)),
            forall|x: Seq<char>|
                #![trigger chars_view(extra@).contains(x)]
                chars_view(extra@).contains(x) <==> (!av.contains(x) && in_prev(cv, c as int, x)),
        decreases combos.len() - c,
    {
        let keys = &combos[c].values;
        let ghost kv = pair_keys(keys@);
        assert(cv[c as int] == kv);
        let mut j: usize = 0;
        while j < keys.len()
            invariant
                j <= keys.len(),
                c < combos.len(),
                keys == &combos@[c as int].values,
                kv == pair_keys(keys@),
                chars_view(axis_chars@) == av,
                strictly_sorted(chars_view(extra@)),
                forall|x: Seq<char>|
                    #![trigger chars_view(extra@).contains(x)]
                    chars_view(extra@).contains(x) <==> (!av.contains(x) && (in_prev(cv, c as int, x)
                        || in_prefix(kv, j as int, x))),
            decreases keys.len() - j,
        {
            let k = chars_of(keys[j].0.as_str());
            assert(kv[j as int] == k@);
            let ghost before = chars_view(extra@);
            let in_axes = contains_chars(&axis_chars, k.as_slice());
            let in_extra = contains_chars(&extra, k.as_slice());
            let ghost kk = k@;
            if !in_axes && !in_extra {
                insert_sorted(&mut extra, k);
            }
            proof {
                assert forall|x: Seq<char>|
                    #![trigger chars_view(extra@).contains(x)]
                    chars_view(extra@).contains(x) <==> (!av.contains(x) && (in_prev(cv, c as int, x)
                        || in_prefix(kv, j + 1, x))) by {
                    assert(before.contains(x) <==> (!av.contains(x) && (in_prev(cv, c as int, x)
                        || in_prefix(kv, j as int, x))));
                    assert(in_prefix(kv, j + 1, x) <==> (in_prefix(kv, j as int, x) || x == kk)) by {
                        if x == kk {
                            assert(kv[j as int] == x);
                        }
                        if in_prefix(kv, j + 1, x) {
                            let t = choose|t: int| 0 <= t < j + 1 && #[trigger] kv[t] == x;
                            if t < j {
                                assert(kv[t] == x);
                            }
                        }
                        if in_prefix(kv, j as int, x) {
                            let t = choose|t: int| 0 <= t < j && #[trigger] kv[t] == x;
                            assert(kv[t] == x);
                        }
                    }
                    if x == kk {
                        assert(before.contains(kk) == in_extra);
                    }
                }
            }
            j += 1;
        }
        proof {
            assert forall|x: Seq<char>|
                #![trigger chars_view(extra@).contains(x)]
                chars_view(extra@).contains(x) <==> (!av.contains(x) && in_prev(cv, c + 1, x)) by {
                assert(in_prev(cv, c + 1, x) <==> (in_prev(cv, c as int, x) || in_prefix(kv, keys.len() as int, x))) by {
                    if in_prev(cv, c + 1, x) {
                        let d = choose|d: int| 0 <= d < c + 1 && (#[trigger] cv[d]).contains(x);
                        if d == c {
                            let t = choose|t: int| 0 <= t < kv.len() && kv[t] == x;
                            assert(kv[t] == x);
                        } else {
                            assert(cv[d].contains(x));
                        }
                    }
                    if in_prefix(kv, keys.len() as int, x) {
                        let t = choose|t: int| 0 <= t < keys.len() && #[trigger] kv[t] == x;
                        assert(cv[c as int][t] == x);
                        assert(cv[c as int].contains(x));
                    }
                    if in_prev(cv, c as int, x) {
                        let d = choose|d: int| 0 <= d < c && (#[trigger] cv[d]).contains(x);
                        assert(cv[d].contains(x));
                    }
                }
            }
        }
        c += 1;
    }
    let mut order: Vec<String> = Vec::new();
    let mut i: usize = 0;
    while i < axes.len()
        invariant
            i <= axes.len(),
            av == axis_names(axes@),
            strings_view(order@) == av.take(i as int),
        decreases axes.len() - i,
    {
        assert(av[i as int] == axes@[i as int].name@);
        let x = string_of(chars_of(axes[i].name.as_str()).as_slice());
        proof {
            lemma_strings_view_push(order@, x);
            lemma_take_push(av, i as int);
        }
        order.push(x);
        i += 1;
    }
    let ghost ev = chars_view(extra@);
    let mut e: usize = 0;
    while e < extra.len()
        invariant
            e <= extra.len(),
            ev == chars_view(extra@),
            strings_view(order@) == av + ev.take(e as int),
        decreases extra.len() - e,
    {
        assert(ev[e as int] == extra@[e as int]@);
        let x = string_of(extra[e].as_slice());
        proof {
            lemma_strings_view_push(order@, x);
            lemma_take_push(ev, e as int);
            assert(av + ev.take(e + 1) =~= (av + ev.take(e as int)).push(x@));
        }
        order.push(x);
        e += 1;
    }
    proof {
        assert(ev.take(extra.len() as int) =~= ev);
        let ov = strings_view(order@);
        assert(ov.take(av.len() as int) =~= av);
        assert(ov.skip(av.len() as int) =~= ev);
        assert forall|k: Seq<char>| ev.contains(k) <==> is_extra_key(av, cv, k) by {
            assert(ev.contains(k) <==> (!av.contains(k) && in_prev(cv, combos.len() as int, k)));
        }
    }
    order
}


/// An axis line: `"  <name>: "` then the values joined with `", "`.
pub open spec fn axis_line(a: MatrixAxis) -> Seq<(Seq<char>, Role)> {
    seq![("  "@ + a.name@ + ": "@, Role::Accent), (join_with(strings_view(a.values@), ", "@), Role::Text)]
}

/// The strategy chips: `max-parallel: n` (with a gap) when a limit is set,
/// then `fail-fast: false` when fail-fast is off.
pub open spec fn chips_spec(max_parallel: Option<u64>, fail_fast: bool) -> Seq<(Seq<char>, Role)> {
    let first: Seq<(Seq<char>, Role)> = match max_parallel {
        Some(m) => seq![("max-parallel: "@ + decimal(m as nat), Role::BadgeDim), (" "@, Role::Plain)],
        None => Seq::empty(),
    };
    if fail_fast {
        first
    } else {
        first.push(("fail-fast: false"@, Role::BadgeWarning))
    }
}

/// The text a combination shows for key `k`: its first value under that
/// key, or `"—"` when it has none.
pub open spec fn cell_text(values: Seq<(String, YamlScalar)>, k: Seq<char>) -> Seq<char>
    decreases values.len(),
{
    if values.len() == 0 {
        "—"@
    } else if values[0].0@ == k {
        scalar_text_spec(values[0].1)
    } else {
        cell_text(values.drop_first(), k)
    }
}

/// The `key=value` cells of a combination row, two muted spaces apart.
pub open spec fn cells_spec(keys: Seq<Seq<char>>, values: Seq<(String, YamlScalar)>) -> Seq<(Seq<char>, Role)>
    decreases keys.len(),
{
    if keys.len() == 0 {
        Seq::empty()
    } else {
        let prev = cells_spec(keys.drop_last(), values);
        let k = keys.last();
        let sep: Seq<(Seq<char>, Role)> = if keys.len() > 1 { seq![("  "@, Role::Muted)] } else { Seq::empty() };
        prev + sep + seq![(k + "="@, Role::Accent), (cell_text(values, k), Role::Text)]
    }
}

/// A combination row: the inherited status glyph, the cells, and a
/// `+include` badge for combinations an `include:` entry added.
pub open spec fn combo_row_spec(keys: Seq<Seq<char>>, c: Combination, tone: Tone) -> Seq<(Seq<char>, Role)> {
    let head = seq![("  "@, Role::Plain), (Seq::<char>::empty(), Role::Glyph(tone)), (" "@, Role::Plain)];
    let body = head + cells_spec(keys, c.values@);
    if c.is_included {
        body + seq![("  "@, Role::Plain), ("+include"@, Role::BadgeWarning)]
    } else {
        body
    }
}

/// The most combination rows the pane lists.
pub open spec fn max_combo_rows() -> nat {
    32
}

/// The combinations section for a non-empty expansion: the heading with
/// the count, the first rows, and how many more there are.
pub open spec fn combos_section(keys: Seq<Seq<char>>, combos: Seq<Combination>, tone: Tone) -> Seq<Seq<(Seq<char>, Role)>> {
    let n = combos.len();
    let shown = if n > max_combo_rows() { combos.take(max_combo_rows() as int) } else { combos };
    let more: Seq<Seq<(Seq<char>, Role)>> = if n > max_combo_rows() {
        seq![seq![("  … +"@ + decimal((n - max_combo_rows()) as nat) + " more"@, Role::Muted)]]
    } else {
        Seq::empty()
    };
    seq![Seq::empty(), seq![("COMBINATIONS ("@ + decimal(n) + ")"@, Role::Heading)]]
        + shown.map_values(|c: Combination| combo_row_spec(keys, c, tone)) + more
}

/// What the pane shows of the expansion: the combinations, a note that
/// there are none, or the expansion error.
pub open spec fn expansion_section(keys: Seq<Seq<char>>, expansion: Result<Vec<Combination>, String>, tone: Tone) -> Seq<Seq<(Seq<char>, Role)>> {
    match expansion {
        Ok(v) => if v@.len() > 0 {
            combos_section(keys, v@, tone)
        } else {
            seq![Seq::empty(), seq![("(matrix expanded to 0 combinations — check exclude: or empty axes)"@, Role::Muted)]]
        },
        Err(e) => seq![Seq::empty(), seq![("expansion error"@, Role::BadgeError), (" "@, Role::Plain), (e@, Role::Dim)]],
    }
}

/// The grid's columns for a matrix and its expansion (see `key_order_ok`;
/// `lemma_key_order_unique` shows there is exactly one such order).
pub open spec fn grid_keys(m: MatrixConfig, expansion: Result<Vec<Combination>, String>) -> Seq<Seq<char>> {
    let combos: Seq<Combination> = match expansion {
        Ok(v) => v@,
        Err(_) => Seq::empty(),
    };
    choose|o: Seq<Seq<char>>| key_order_ok(o, axis_names(m.axes@), combo_keys_view(combos))
}

/// The chip line (after a blank one) when the strategy sets a limit or
/// turns fail-fast off; the strategy's own settings win over the matrix's.
pub open spec fn chip_lines_spec(s: Strategy, m: MatrixConfig) -> Seq<Seq<(Seq<char>, Role)>> {
    let max_parallel = match s.max_parallel { Some(x) => Some(x), None => m.max_parallel };
    let fail_fast = match s.fail_fast { Some(b) => b, None => match m.fail_fast { Some(b) => b, None => true } };
    let chips = chips_spec(max_parallel, fail_fast);
    if chips.len() > 0 { seq![Seq::empty(), chips] } else { Seq::empty() }
}

/// The `EXCLUDE (n)` heading (after a blank line) when there are excludes.
pub open spec fn exclude_lines_spec(m: MatrixConfig) -> Seq<Seq<(Seq<char>, Role)>> {
    if m.exclude_count > 0 {
        seq![Seq::empty(), seq![("EXCLUDE ("@ + decimal(m.exclude_count as nat) + ")"@, Role::Heading)]]
    } else {
        Seq::empty()
    }
}

/// The lines for a written-out matrix, after the `AXES` heading.
pub open spec fn config_lines(s: Strategy, m: MatrixConfig, expansion: Result<Vec<Combination>, String>, tone: Tone) -> Seq<Seq<(Seq<char>, Role)>> {
    m.axes@.map_values(|a: MatrixAxis| axis_line(a)) + chip_lines_spec(s, m)
        + expansion_section(grid_keys(m, expansion), expansion, tone) + exclude_lines_spec(m)
}

/// The strategy's own `fail-fast` and `max-parallel` win over the
/// matrix's, which count only when the strategy leaves them unset:
/// fail-fast off shows the `fail-fast: false` chip (the last on the chip
/// line right after the axes), fail-fast on shows no such chip, and a
/// limit shows as the first chip.
pub proof fn law_strategy_settings_win(
    job: Seq<char>,
    s: Strategy,
    m: MatrixConfig,
    expansion: Result<Vec<Combination>, String>,
    tone: Tone,
)
    requires
        s.matrix == Some(MatrixDef::Config(m)),
    ensures
        ({
            let ff = match s.fail_fast { Some(b) => b, None => match m.fail_fast { Some(b) => b, None => true } };
            let mp = match s.max_parallel { Some(x) => Some(x), None => m.max_parallel };
            let lines = matrix_pane_spec(job, Some(s), expansion, tone).1;
            let chips = chip_lines_spec(s, m);
            &&& (s.fail_fast == Some(false) ==> !ff)
            &&& (s.fail_fast == Some(true) ==> ff)
            &&& (s.max_parallel is Some ==> mp == s.max_parallel)
            &&& (!ff ==> chips.len() == 2 && chips[1].last() == ("fail-fast: false"@, Role::BadgeWarning)
                && lines[m.axes@.len() as int + 2] == chips[1] && lines[m.axes@.len() as int + 1].len() == 0)
            &&& (ff ==> forall|l: int, k: int| 0 <= l < chips.len() && 0 <= k < chips[l].len()
                ==> #[trigger] chips[l][k] != ("fail-fast: false"@, Role::BadgeWarning))
            &&& (mp matches Some(n) ==> chips.len() == 2
                && chips[1][0] == ("max-parallel: "@ + decimal(n as nat), Role::BadgeDim))
            &&& (ff && mp is None ==> chips.len() == 0)
        }),
{
    reveal_strlit("fail-fast: false");
    reveal_strlit("max-parallel: ");
    let lines = matrix_pane_spec(job, Some(s), expansion, tone).1;
    let axes = m.axes@.map_values(|a: MatrixAxis| axis_line(a));
    let chips = chip_lines_spec(s, m);
    let head: Seq<Seq<(Seq<char>, Role)>> = seq![seq![("AXES"@, Role::Heading)]];
    assert(lines == head + config_lines(s, m, expansion, tone));
    if chips.len() > 0 {
        assert(lines[m.axes@.len() as int + 1] == chips[0]);
        assert(lines[m.axes@.len() as int + 2] == chips[1]);
    }
    let ff = match s.fail_fast { Some(b) => b, None => match m.fail_fast { Some(b) => b, None => true } };
    if ff && chips.len() > 0 {
        let c = chips[1];
        assert forall|l: int, k: int| 0 <= l < chips.len() && 0 <= k < chips[l].len()
            implies #[trigger] chips[l][k] != ("fail-fast: false"@, Role::BadgeWarning) by {
            if l == 1 {
                assert(c[k].1 != Role::BadgeWarning);
            }
        }
    }
}

/// The Matrix pane for `job` with the given strategy: whether it is
/// centred, and its lines.
pub open spec fn matrix_pane_spec(job: Seq<char>, strategy: Option<Strategy>, expansion: Result<Vec<Combination>, String>, tone: Tone) -> (bool, Seq<Seq<(Seq<char>, Role)>>) {
    match strategy {
        None => (true, seq![Seq::empty(), seq![("`"@ + job + "` is not a matrix job."@, Role::Dim)]]),
        Some(s) => {
            let head: Seq<Seq<(Seq<char>, Role)>> = seq![seq![("AXES"@, Role::Heading)]];
            match s.matrix {
                None => (false, head.push(seq![("(matrix strategy with no axes)"@, Role::Muted)])),
                Some(MatrixDef::Expression(e)) => {
                    let text: Seq<char> = match e { Some(t) => t@, None => "expression"@ };
                    (false, head.push(seq![("(dynamic matrix: "@ + text + " — resolved from needs outputs at execution time)"@, Role::Muted)]))
                },
                Some(MatrixDef::Config(m)) => (false, head + config_lines(s, m, expansion, tone)),
            }
        },
    }
}


/// `parts` joined with `sep` between them.
pub fn join_strings(parts: &Vec<String>, sep: &str) -> (r: String)
    ensures
        r@ == join_with(strings_view(parts@), sep@),
{
    let ghost pv = strings_view(parts@);
    let mut out: Vec<char> = Vec::new();
    let mut i: usize = 0;
    while i < parts.len()
        invariant
            i <= parts.len(),
            pv == strings_view(parts@),
            out@ == join_with(pv.take(i as int), sep@),
        decreases parts.len() - i,
    {
        assert(pv.take(i + 1).drop_last() =~= pv.take(i as int));
        assert(pv.take(i + 1).last() == parts@[i as int]@);
        if i > 0 {
            push_str(&mut out, sep);
        }
        push_str(&mut out, parts[i].as_str());
        proof {
            if i == 0 {
                assert(out@ =~= pv.take(1)[0]);
            }
        }
        i += 1;
    }
    assert(pv.take(parts.len() as int) =~= pv);
    string_of(out.as_slice())
}

fn axis_line_of(a: &MatrixAxis) -> (line: Vec<(String, Role)>)
    ensures
        spans_view(line@) == axis_line(*a),
{
    let mut name: Vec<char> = Vec::new();
    push_str(&mut name, "  ");
    push_str(&mut name, a.name.as_str());
    push_str(&mut name, ": ");
    let mut line: Vec<(String, Role)> = Vec::new();
    line.push((string_of(name.as_slice()), Role::Accent));
    line.push((join_strings(&a.values, ", "), Role::Text));
    assert(spans_view(line@) =~= axis_line(*a));
    line
}

fn chips_of(max_parallel: Option<u64>, fail_fast: bool) -> (line: Vec<(String, Role)>)
    ensures
        spans_view(line@) == chips_spec(max_parallel, fail_fast),
{
    let mut line: Vec<(String, Role)> = Vec::new();
    match max_parallel {
        Some(m) => {
            let mut t: Vec<char> = Vec::new();
            push_str(&mut t, "max-parallel: ");
            push_decimal(&mut t, m as u128);
            line.push((string_of(t.as_slice()), Role::BadgeDim));
            line.push((owned(" "), Role::Plain));
        },
        None => {},
    }
    if !fail_fast {
        line.push((owned("fail-fast: false"), Role::BadgeWarning));
    }
    assert(spans_view(line@) =~= chips_spec(max_parallel, fail_fast));
    line
}

/// The text a combination shows for key `k`.
pub fn cell_value(values: &Vec<(String, YamlScalar)>, k: &[char]) -> (r: String)
    ensures
        r@ == cell_text(values@, k@),
{
    let mut i: usize = 0;
    assert(values@.skip(0) =~= values@);
    while i < values.len()
        invariant
            i <= values.len(),
            cell_text(values@, k@) == cell_text(values@.skip(i as int), k@),
        decreases values.len() - i,
    {
        assert(values@.skip(i as int)[0] == values@[i as int]);
        let kc = chars_of(values[i].0.as_str());
        if chars_eq(kc.as_slice(), k) {
            return scalar_text(&values[i].1);
        }
        assert(values@.skip(i as int).drop_first() =~= values@.skip(i + 1));
        i += 1;
    }
    owned("—")
}

fn combo_row(keys: &Vec<String>, c: &Combination, tone: Tone) -> (line: Vec<(String, Role)>)
    ensures
        spans_view(line@) == combo_row_spec(strings_view(keys@), *c, tone),
{
    let ghost kv = strings_view(keys@);
    let mut line: Vec<(String, Role)> = Vec::new();
    line.push((owned("  "), Role::Plain));
    line.push((String::new(), Role::Glyph(tone)));
    line.push((owned(" "), Role::Plain));
    let ghost head = spans_view(line@);
    assert(head =~= seq![("  "@, Role::Plain), (Seq::<char>::empty(), Role::Glyph(tone)), (" "@, Role::Plain)]);
    let mut i: usize = 0;
    assert(kv.take(0) =~= Seq::<Seq<char>>::empty());
    while i < keys.len()
        invariant
            i <= keys.len(),
            kv == strings_view(keys@),
            spans_view(line@) == head + cells_spec(kv.take(i as int), c.values@),
        decreases keys.len() - i,
    {
        let ghost before = spans_view(line@);
        assert(kv.take(i + 1).drop_last() =~= kv.take(i as int));
        assert(kv.take(i + 1).last() == keys@[i as int]@);
        if i > 0 {
            line.push((owned("  "), Role::Muted));
        }
        let k = chars_of(keys[i].as_str());
        let mut label: Vec<char> = Vec::new();
        push_all(&mut label, k.as_slice());
        push_str(&mut label, "=");
        line.push((string_of(label.as_slice()), Role::Accent));
        line.push((cell_value(&c.values, k.as_slice()), Role::Text));
        proof {
            let sep: Seq<(Seq<char>, Role)> = if i > 0 { seq![("  "@, Role::Muted)] } else { Seq::empty() };
            let tail = seq![(kv[i as int] + "="@, Role::Accent), (cell_text(c.values@, kv[i as int]), Role::Text)];
            assert(spans_view(line@) =~= before + sep + tail);
            assert(cells_spec(kv.take(i + 1), c.values@) == cells_spec(kv.take(i as int), c.values@) + sep + tail);
            assert(spans_view(line@) =~= head + cells_spec(kv.take(i + 1), c.values@));
        }
        i += 1;
    }
    assert(kv.take(keys.len() as int) =~= kv);
    if c.is_included {
        let ghost body = spans_view(line@);
        line.push((owned("  "), Role::Plain));
        line.push((owned("+include"), Role::BadgeWarning));
        assert(spans_view(line@) =~= body + seq![("  "@, Role::Plain), ("+include"@, Role::BadgeWarning)]);
    }
    line
}


fn push_combos(lines: &mut Vec<Vec<(String, Role)>>, keys: &Vec<String>, combos: &Vec<Combination>, tone: Tone)
    requires
        combos.len() > 0,
    ensures
        lines_view(final(lines)@) == lines_view(old(lines)@) + combos_section(strings_view(keys@), combos@, tone),
{
    let ghost kv = strings_view(keys@);
    let ghost start = lines_view(lines@);
    let n = combos.len();
    push_blank(lines);
    let mut h: Vec<char> = Vec::new();
    push_str(&mut h, "COMBINATIONS (");
    push_decimal(&mut h, n as u128);
    push_str(&mut h, ")");
    push_line(lines, single(string_of(h.as_slice()), Role::Heading));
    let ghost head = seq![Seq::<(Seq<char>, Role)>::empty(), seq![("COMBINATIONS ("@ + decimal(n as nat) + ")"@, Role::Heading)]];
    assert(lines_view(lines@) =~= start + head);
    let shown: usize = if n > 32 { 32 } else { n };
    let mut i: usize = 0;
    while i < shown
        invariant
            i <= shown,
            shown <= combos.len(),
            kv == strings_view(keys@),
            lines_view(lines@) == start + head + combos@.take(i as int).map_values(|c: Combination| combo_row_spec(kv, c, tone)),
        decreases shown - i,
    {
        let ghost before = lines_view(lines@);
        push_line(lines, combo_row(keys, &combos[i], tone));
        assert(combos@.take(i + 1).map_values(|c: Combination| combo_row_spec(kv, c, tone))
            =~= combos@.take(i as int).map_values(|c: Combination| combo_row_spec(kv, c, tone)).push(combo_row_spec(kv, combos@[i as int], tone)));
        i += 1;
    }
    let ghost rows = combos@.take(shown as int).map_values(|c: Combination| combo_row_spec(kv, c, tone));
    if n > 32 {
        let mut t: Vec<char> = Vec::new();
        push_str(&mut t, "  … +");
        push_decimal(&mut t, (n - 32) as u128);
        push_str(&mut t, " more");
        push_line(lines, single(string_of(t.as_slice()), Role::Muted));
        assert(lines_view(lines@) =~= start + combos_section(kv, combos@, tone));
    } else {
        assert(combos@.take(n as int) =~= combos@);
        assert(lines_view(lines@) =~= start + combos_section(kv, combos@, tone));
    }
}

/// The status glyph every combination row inherits from its job: the
/// job's final status, or not started while it has no result.
pub open spec fn combo_tone_spec(w: Workflow, job: Seq<char>) -> Tone {
    match w.execution_details {
        Some(e) => match first_answering(e.jobs@, job, true, 0) {
            Some(i) => status_tone(Some(e.jobs@[i].status)),
            None => Tone::Running,
        },
        None => Tone::Running,
    }
}

/// The glyph a combination row shows: per-combination results are not
/// tracked, so every row mirrors the job named `job_name`.
pub fn inherited_combo_glyph(workflow: &Workflow, job_name: &str) -> (glyph: (String, Role))
    ensures
        glyph.0@ == Seq::<char>::empty(),
        glyph.1 == Role::Glyph(combo_tone_spec(*workflow, job_name@)),
{
    let tone = match &workflow.execution_details {
        Some(e) => {
            let name = chars_of(job_name);
            match find_answering(&e.jobs, name.as_slice(), true) {
                Some(i) => match e.jobs[i].status {
                    JobStatus::Success => Tone::Success,
                    JobStatus::Failure => Tone::Failure,
                    JobStatus::Skipped => Tone::Skipped,
                },
                None => Tone::Running,
            }
        },
        None => Tone::Running,
    };
    (String::new(), Role::Glyph(tone))
}

fn tone_of(workflow: &Workflow, job_name: &str) -> (t: Tone)
    ensures
        t == combo_tone_spec(*workflow, job_name@),
{
    let (_, role) = inherited_combo_glyph(workflow, job_name);
    match role {
        Role::Glyph(t) => t,
        _ => Tone::Running,
    }
}

fn push_expansion(lines: &mut Vec<Vec<(String, Role)>>, m: &MatrixConfig, expansion: &Result<Vec<Combination>, String>, tone: Tone)
    ensures
        lines_view(final(lines)@) == lines_view(old(lines)@) + expansion_section(grid_keys(*m, *expansion), *expansion, tone),
{
    let ghost start = lines_view(lines@);
    match expansion {
        Ok(combos) => {
            if combos.len() > 0 {
                let order = matrix_key_order(&m.axes, combos);
                proof {
                    let g = grid_keys(*m, *expansion);
                    assert(key_order_ok(g, axis_names(m.axes@), combo_keys_view(combos@)));
                    lemma_key_order_unique(strings_view(order@), g, axis_names(m.axes@), combo_keys_view(combos@));
                }
                push_combos(lines, &order, combos, tone);
            } else {
                push_blank(lines);
                push_line(lines, single(owned("(matrix expanded to 0 combinations — check exclude: or empty axes)"), Role::Muted));
                assert(lines_view(lines@) =~= start + expansion_section(grid_keys(*m, *expansion), *expansion, tone));
            }
        },
        Err(e) => {
            push_blank(lines);
            let mut line: Vec<(String, Role)> = Vec::new();
            line.push((owned("expansion error"), Role::BadgeError));
            line.push((owned(" "), Role::Plain));
            line.push((owned(e.as_str()), Role::Dim));
            assert(spans_view(line@) =~= seq![("expansion error"@, Role::BadgeError), (" "@, Role::Plain), (e@, Role::Dim)]);
            push_line(lines, line);
            assert(lines_view(lines@) =~= start + expansion_section(grid_keys(*m, *expansion), *expansion, tone));
        },
    }
}

fn push_chip_lines(lines: &mut Vec<Vec<(String, Role)>>, s: &Strategy, m: &MatrixConfig)
    ensures
        lines_view(final(lines)@) == lines_view(old(lines)@) + chip_lines_spec(*s, *m),
{
    let ghost start = lines_view(lines@);
    let max_parallel = match s.max_parallel {
        Some(x) => Some(x),
        None => m.max_parallel,
    };
    let fail_fast = match s.fail_fast {
        Some(b) => b,
        None => match m.fail_fast {
            Some(b) => b,
            None => true,
        },
    };
    let chips = chips_of(max_parallel, fail_fast);
    let ghost chips_v = spans_view(chips@);
    if chips.len() > 0 {
        push_blank(lines);
        push_line(lines, chips);
    }
    assert(lines_view(lines@) =~= start + chip_lines_spec(*s, *m));
}

fn push_exclude_lines(lines: &mut Vec<Vec<(String, Role)>>, m: &MatrixConfig)
    ensures
        lines_view(final(lines)@) == lines_view(old(lines)@) + exclude_lines_spec(*m),
{
    let ghost start = lines_view(lines@);
    if m.exclude_count > 0 {
        push_blank(lines);
        let mut t: Vec<char> = Vec::new();
        push_str(&mut t, "EXCLUDE (");
        push_decimal(&mut t, m.exclude_count as u128);
        push_str(&mut t, ")");
        push_line(lines, single(string_of(t.as_slice()), Role::Heading));
    }
    assert(lines_view(lines@) =~= start + exclude_lines_spec(*m));
}

fn push_config(lines: &mut Vec<Vec<(String, Role)>>, s: &Strategy, m: &MatrixConfig, expansion: &Result<Vec<Combination>, String>, tone: Tone)
    ensures
        lines_view(final(lines)@) == lines_view(old(lines)@) + config_lines(*s, *m, *expansion, tone),
{
    let ghost head = lines_view(lines@);
    let mut a: usize = 0;
    while a < m.axes.len()
        invariant
            a <= m.axes.len(),
            lines_view(lines@) == head + m.axes@.take(a as int).map_values(|x: MatrixAxis| axis_line(x)),
        decreases m.axes.len() - a,
    {
        push_line(lines, axis_line_of(&m.axes[a]));
        assert(m.axes@.take(a + 1).map_values(|x: MatrixAxis| axis_line(x))
            =~= m.axes@.take(a as int).map_values(|x: MatrixAxis| axis_line(x)).push(axis_line(m.axes@[a as int])));
        a += 1;
    }
    assert(m.axes@.take(m.axes.len() as int) =~= m.axes@);
    let ghost after_axes = lines_view(lines@);
    push_chip_lines(lines, s, m);
    let ghost after_chips = lines_view(lines@);
    push_expansion(lines, m, expansion, tone);
    let ghost after_exp = lines_view(lines@);
    push_exclude_lines(lines, m);
    assert(lines_view(lines@) =~= head + config_lines(*s, *m, *expansion, tone));
}

/// The Matrix pane: whether its text is centred, and its lines.
pub struct MatrixPane {
    pub centered: bool,
    pub lines: Vec<Vec<(String, Role)>>,
}

/// The Matrix pane for `job_name`, given the job's strategy (`None` for a
/// job without one) and the expansion of its matrix into combinations.
pub fn matrix_pane(
    workflow: &Workflow,
    job_name: &str,
    strategy: Option<&Strategy>,
    expansion: &Result<Vec<Combination>, String>,
) -> (p: MatrixPane)
    requires
        expansion_wf(*expansion),
    ensures
        (p.centered, lines_view(p.lines@)) == matrix_pane_spec(
            job_name@,
            match strategy { Some(s) => Some(*s), None => None },
            *expansion,
            combo_tone_spec(*workflow, job_name@),
        ),
{
    let ghost sopt = match strategy { Some(s) => Some(*s), None => None };
    let ghost tone_s = combo_tone_spec(*workflow, job_name@);
    let mut lines: Vec<Vec<(String, Role)>> = Vec::new();
    let s = match strategy {
        None => {
            push_blank(&mut lines);
            let mut t: Vec<char> = Vec::new();
            push_str(&mut t, "`");
            push_str(&mut t, job_name);
            push_str(&mut t, "` is not a matrix job.");
            push_line(&mut lines, single(string_of(t.as_slice()), Role::Dim));
            assert(lines_view(lines@) =~= matrix_pane_spec(job_name@, sopt, *expansion, tone_s).1);
            return MatrixPane { centered: true, lines };
        },
        Some(s) => s,
    };
    push_line(&mut lines, single(owned("AXES"), Role::Heading));
    let ghost head = lines_view(lines@);
    assert(head =~= seq![seq![("AXES"@, Role::Heading)]]);
    let m = match &s.matrix {
        None => {
            push_line(&mut lines, single(owned("(matrix strategy with no axes)"), Role::Muted));
            return MatrixPane { centered: false, lines };
        },
        Some(MatrixDef::Expression(e)) => {
            let mut t: Vec<char> = Vec::new();
            push_str(&mut t, "(dynamic matrix: ");
            match e {
                Some(x) => push_str(&mut t, x.as_str()),
                None => push_str(&mut t, "expression"),
            }
            push_str(&mut t, " — resolved from needs outputs at execution time)");
            push_line(&mut lines, single(string_of(t.as_slice()), Role::Muted));
            return MatrixPane { centered: false, lines };
        },
        Some(MatrixDef::Config(m)) => m,
    };
    push_config(&mut lines, s, m, expansion, tone_of(workflow, job_name));
    assert(lines_view(lines@) =~= head + config_lines(*s, *m, *expansion, tone_s));
    MatrixPane { centered: false, lines }
}

} // verus!
