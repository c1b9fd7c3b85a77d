use wrkflw_ui::job_detail::YamlScalar;
use wrkflw_ui::matrix_view::{
    cell_value, has_unique_keys, inherited_combo_glyph, join_strings, lex_less, matrix_key_order, matrix_pane, Combination, MatrixAxis,
    MatrixConfig, MatrixDef, Strategy,
};
use wrkflw_ui::models::{JobExecution, JobStatus, Workflow, WorkflowExecution, WorkflowStatus};
use wrkflw_ui::style::{Role, Tone};

fn text_of(line: &[(String, Role)]) -> String {
    line.iter().map(|(s, _)| s.as_str()).collect()
}

fn workflow(jobs: Option<Vec<(&str, JobStatus)>>) -> Workflow {
    Workflow {
        name: "ci".to_string(),
        path: "ci.yml".to_string(),
        selected: false,
        status: WorkflowStatus::Running,
        execution_details: jobs.map(|jobs| WorkflowExecution {
            jobs: jobs
                .into_iter()
                .map(|(n, s)| JobExecution {
                    name: n.to_string(),
                    status: s,
                    steps: vec![],
                    logs: vec![],
                    started_at: Some(0),
                    finished_at: Some(1),
                })
                .collect(),
            start_time: 0,
            end_time: None,
            logs: vec![],
        }),
        job_names: vec![],
        trigger_match: None,
    }
}

fn axis(name: &str, values: &[&str]) -> MatrixAxis {
    MatrixAxis { name: name.to_string(), values: values.iter().map(|s| s.to_string()).collect() }
}

fn combo(pairs: &[(&str, &str)], included: bool) -> Combination {
    Combination {
        values: pairs.iter().map(|(k, v)| (k.to_string(), YamlScalar::String(v.to_string()))).collect(),
        is_included: included,
    }
}

fn config(axes: Vec<MatrixAxis>) -> MatrixConfig {
    MatrixConfig { axes, max_parallel: None, fail_fast: None, exclude_count: 0 }
}

#[test]
fn lex_less_is_string_order() {
    let c = |s: &str| s.chars().collect::<Vec<char>>();
    for (a, b) in [("a", "b"), ("ab", "a"), ("", "x"), ("node", "node"), ("Z", "a"), ("é", "z")] {
        assert_eq!(lex_less(&c(a), &c(b)), a < b, "{a} < {b}");
    }
}

#[test]
fn key_order_puts_axes_first_then_sorted_extras() {
    let axes = vec![axis("os", &["linux"]), axis("node", &["18"])];
    let combos = vec![
        combo(&[("os", "linux"), ("node", "18"), ("zeta", "1")], false),
        combo(&[("alpha", "x"), ("os", "mac"), ("zeta", "2")], true),
    ];
    assert_eq!(matrix_key_order(&axes, &combos), vec!["os", "node", "alpha", "zeta"]);
    let reordered = vec![reversed(&combos[1]), reversed(&combos[0])];
    assert_eq!(matrix_key_order(&axes, &reordered), vec!["os", "node", "alpha", "zeta"]);
}

fn reversed(c: &Combination) -> Combination {
    Combination {
        values: c
            .values
            .iter()
            .rev()
            .map(|(k, v)| {
                let v = match v {
                    YamlScalar::String(s) => YamlScalar::String(s.clone()),
                    YamlScalar::Number(s) => YamlScalar::Number(s.clone()),
                    YamlScalar::Document(s) => YamlScalar::Document(s.clone()),
                    YamlScalar::Bool(b) => YamlScalar::Bool(*b),
                    YamlScalar::Null => YamlScalar::Null,
                };
                (k.clone(), v)
            })
            .collect(),
        is_included: c.is_included,
    }
}

#[test]
fn cells_show_a_dash_for_missing_keys() {
    let c = combo(&[("os", "linux")], false);
    assert_eq!(cell_value(&c.values, &['o', 's']), "linux");
    assert_eq!(cell_value(&c.values, &['x']), "—");
}

#[test]
fn join_strings_separates_values() {
    assert_eq!(join_strings(&vec!["18".to_string(), "20".to_string()], ", "), "18, 20");
    assert_eq!(join_strings(&vec![], ", "), "");
}

#[test]
fn combos_inherit_the_job_status() {
    let w = workflow(Some(vec![("build", JobStatus::Failure), ("test", JobStatus::Success)]));
    assert_eq!(inherited_combo_glyph(&w, "test").1, Role::Glyph(Tone::Success));
    assert_eq!(inherited_combo_glyph(&w, "build").1, Role::Glyph(Tone::Failure));
    assert_eq!(inherited_combo_glyph(&w, "other").1, Role::Glyph(Tone::Running));
    assert_eq!(inherited_combo_glyph(&workflow(None), "test").1, Role::Glyph(Tone::Running));
}

#[test]
fn a_job_without_strategy_is_not_a_matrix() {
    let p = matrix_pane(&workflow(None), "build", None, &Ok(vec![]));
    assert!(p.centered);
    assert_eq!(p.lines.len(), 2);
    assert!(p.lines[0].is_empty());
    assert_eq!(text_of(&p.lines[1]), "`build` is not a matrix job.");
}

#[test]
fn strategy_without_matrix_and_dynamic_matrix() {
    let s = Strategy { matrix: None, max_parallel: None, fail_fast: None };
    let p = matrix_pane(&workflow(None), "j", Some(&s), &Ok(vec![]));
    assert!(!p.centered);
    assert_eq!(text_of(&p.lines[0]), "AXES");
    assert_eq!(text_of(&p.lines[1]), "(matrix strategy with no axes)");
    let d = Strategy { matrix: Some(MatrixDef::Expression(Some("${{ fromJSON(needs.a.outputs.m) }}".to_string()))), max_parallel: None, fail_fast: None };
    let p = matrix_pane(&workflow(None), "j", Some(&d), &Ok(vec![]));
    assert_eq!(
        text_of(&p.lines[1]),
        "(dynamic matrix: ${{ fromJSON(needs.a.outputs.m) }} — resolved from needs outputs at execution time)"
    );
    let e = Strategy { matrix: Some(MatrixDef::Expression(None)), max_parallel: None, fail_fast: None };
    let p = matrix_pane(&workflow(None), "j", Some(&e), &Ok(vec![]));
    assert!(text_of(&p.lines[1]).starts_with("(dynamic matrix: expression — "));
}

#[test]
fn matrix_pane_lists_axes_chips_combinations_and_excludes() {
    let mut m = config(vec![axis("os", &["linux", "mac"]), axis("node", &["18", "20"])]);
    m.fail_fast = Some(false);
    m.exclude_count = 1;
    let s = Strategy { matrix: Some(MatrixDef::Config(m)), max_parallel: Some(2), fail_fast: None };
    let combos = vec![
        combo(&[("os", "linux"), ("node", "18")], false),
        combo(&[("os", "mac"), ("node", "20"), ("extra", "x")], true),
    ];
    let w = workflow(Some(vec![("test", JobStatus::Success)]));
    let p = matrix_pane(&w, "test", Some(&s), &Ok(combos));
    let texts: Vec<String> = p.lines.iter().map(|l| text_of(l)).collect();
    assert_eq!(
        texts,
        vec![
            "AXES",
            "  os: linux, mac",
            "  node: 18, 20",
            "",
            "max-parallel: 2 fail-fast: false",
            "",
            "COMBINATIONS (2)",
            "   os=linux  node=18  extra=—",
            "   os=mac  node=20  extra=x  +include",
            "",
            "EXCLUDE (1)",
        ]
    );
    assert_eq!(p.lines[7][1].1, Role::Glyph(Tone::Success));
    assert_eq!(p.lines[4][0].1, Role::BadgeDim);
    assert_eq!(p.lines[4][2].1, Role::BadgeWarning);
}

#[test]
fn matrix_pane_caps_the_grid_and_reports_errors() {
    let s = Strategy { matrix: Some(MatrixDef::Config(config(vec![axis("n", &[])]))), max_parallel: None, fail_fast: Some(true) };
    let many: Vec<Combination> = (0..40).map(|i| combo(&[("n", &i.to_string())], false)).collect();
    let p = matrix_pane(&workflow(None), "j", Some(&s), &Ok(many));
    assert_eq!(p.lines.len(), 2 + 2 + 32 + 1);
    assert_eq!(text_of(p.lines.last().unwrap()), "  … +8 more");
    let p = matrix_pane(&workflow(None), "j", Some(&s), &Ok(vec![]));
    assert_eq!(
        text_of(p.lines.last().unwrap()),
        "(matrix expanded to 0 combinations — check exclude: or empty axes)"
    );
    let p = matrix_pane(&workflow(None), "j", Some(&s), &Err("bad include".to_string()));
    assert_eq!(p.lines.last().unwrap()[0], ("expansion error".to_string(), Role::BadgeError));
    assert_eq!(text_of(p.lines.last().unwrap()), "expansion error bad include");
}

#[test]
fn combinations_map_each_key_once() {
    assert!(has_unique_keys(&combo(&[("os", "a"), ("node", "b")], false)));
    assert!(!has_unique_keys(&combo(&[("os", "a"), ("node", "b"), ("os", "c")], false)));
    assert!(has_unique_keys(&combo(&[], false)));
}
