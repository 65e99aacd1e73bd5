use uic_tui::lint::{
    check_element, check_template, join, widget_kind, ChildDef, Finding, Severity, TemplateAttr,
    TemplateElement, TemplateNode, WidgetKind,
};

fn stat(name: &str, value: &str) -> TemplateAttr {
    TemplateAttr::Static { name: name.to_string(), value: value.to_string() }
}

fn bound(name: &str) -> TemplateAttr {
    TemplateAttr::Bound { name: name.to_string() }
}

fn on(name: &str) -> TemplateAttr {
    TemplateAttr::Event { name: name.to_string() }
}

fn el(tag: &str, attrs: Vec<TemplateAttr>, detected: bool, children: Vec<TemplateNode>) -> TemplateNode {
    TemplateNode::Element(TemplateElement {
        tag: tag.to_string(),
        attrs,
        custom: tag.contains('-'),
        detected,
        children,
    })
}

fn fake_children() -> Vec<ChildDef> {
    vec![ChildDef { tag: "fake-child".to_string(), notify: vec!["value-changed".to_string()] }]
}

fn check(roots: Vec<TemplateNode>) -> Vec<Finding> {
    check_template("x-test", &roots, &Vec::new(), &fake_children())
}

fn errors(findings: &[Finding]) -> Vec<&Finding> {
    findings.iter().filter(|f| f.severity == Severity::Error).collect()
}

#[test]
fn a_clean_widget_template_passes() {
    let findings = check(vec![el(
        "div",
        vec![],
        false,
        vec![el(
            "input",
            vec![stat("data-tui", "text-input"), on("change"), on("input")],
            true,
            vec![],
        )],
    )]);
    assert!(findings.is_empty(), "{findings:?}");
}

#[test]
fn an_unknown_widget_kind_is_an_error() {
    let findings = check(vec![el("span", vec![stat("data-tui", "no-such-kind")], false, vec![])]);
    let errors = errors(&findings);
    assert_eq!(errors.len(), 1);
    assert!(errors[0].message.contains("no-such-kind"));
    assert_eq!(errors[0].path, "span[data-tui=no-such-kind]");
}

#[test]
fn an_undispatched_event_on_a_widget_is_an_error() {
    let findings = check(vec![el("input", vec![stat("data-tui", "text-input"), on("click")], true, vec![])]);
    let errors = errors(&findings);
    assert_eq!(errors.len(), 1);
    assert!(errors[0].message.contains("@click"));
}

#[test]
fn a_click_on_a_plain_element_passes_and_other_events_warn() {
    // @click dispatches natively (the pointer path), so it lints clean.
    let clean = check(vec![el("div", vec![on("click")], false, vec![TemplateNode::Text])]);
    assert!(clean.is_empty(), "{clean:?}");

    let findings = check(vec![el("div", vec![on("keydown")], false, vec![TemplateNode::Text])]);
    assert_eq!(findings.len(), 1);
    assert_eq!(findings[0].severity, Severity::Warning);
    assert!(findings[0].message.contains("web-only"));
}

#[test]
fn a_bound_widget_kind_warns_only() {
    let findings = check(vec![el("div", vec![bound("data-tui")], false, vec![])]);
    assert_eq!(findings.len(), 1);
    assert_eq!(findings[0].severity, Severity::Warning);
}

#[test]
fn a_plain_input_is_a_detected_widget() {
    // Detection applies the widget event contract to plain form
    // elements: @click never dispatches there.
    let clean = check(vec![el("input", vec![stat("type", "text"), on("change"), on("input")], true, vec![])]);
    assert!(clean.is_empty(), "{clean:?}");

    let findings = check(vec![el("input", vec![on("click")], true, vec![])]);
    let click_errors = errors(&findings);
    assert_eq!(click_errors.len(), 1);
    assert!(click_errors[0].message.contains("@click"));

    let textarea = check(vec![el("textarea", vec![on("keydown")], true, vec![])]);
    assert_eq!(errors(&textarea).len(), 1);
}

#[test]
fn excluded_controls_and_twins_stay_plain_elements() {
    // A checkbox is a pointer control, not a text widget; @click is
    // its native path.
    let checkbox = check(vec![el("input", vec![stat("type", "checkbox"), on("click")], false, vec![])]);
    assert!(checkbox.is_empty(), "{checkbox:?}");

    // A negative tabindex opts a presentation twin out of detection;
    // its non-click handler warns like any plain element.
    let twin = check(vec![el("input", vec![stat("tabindex", "-1"), on("keydown")], true, vec![])]);
    assert_eq!(twin.len(), 1);
    assert_eq!(twin[0].severity, Severity::Warning);
    assert!(twin[0].message.contains("web-only"));
}

#[test]
fn a_bound_input_type_warns_and_skips_the_event_rule() {
    let findings = check(vec![el("input", vec![bound("type"), on("change")], true, vec![])]);
    assert_eq!(findings.len(), 1);
    assert_eq!(findings[0].severity, Severity::Warning);
    assert!(findings[0].message.contains("bound type"));
}

#[test]
fn notify_events_of_a_child_pass_and_typos_fail() {
    let good = check(vec![el("fake-child", vec![on("value-changed")], false, vec![])]);
    assert!(good.is_empty(), "{good:?}");

    let typo = check(vec![el("fake-child", vec![on("value-change")], false, vec![])]);
    let errors = errors(&typo);
    assert_eq!(errors.len(), 1);
    assert!(
        errors[0].message.contains("it notifies value-changed"),
        "{}",
        errors[0].line()
    );
}

#[test]
fn branches_are_walked_and_the_breadcrumb_names_the_spot() {
    let findings = check(vec![el(
        "div",
        vec![],
        false,
        vec![TemplateNode::If(vec![el(
            "section",
            vec![],
            false,
            vec![el("a", vec![on("keydown")], false, vec![TemplateNode::Text])],
        )])],
    )]);
    assert_eq!(findings.len(), 1);
    assert_eq!(findings[0].path, "div > section > a");
    assert_eq!(findings[0].line().split(':').next(), Some("warning"));
}

#[test]
fn a_finding_reads_as_one_line() {
    let finding = Finding {
        component: "x-test".to_string(),
        path: "div > a".to_string(),
        message: "oops".to_string(),
        severity: Severity::Error,
    };
    assert_eq!(finding.line(), "error: <x-test> div > a: oops");
    let bare = Finding { path: String::new(), severity: Severity::Warning, ..finding };
    assert_eq!(bare.line(), "warning: <x-test>: oops");
}

#[test]
fn the_messages_spell_out_the_contract() {
    let findings = check(vec![
        el("span", vec![stat("data-tui", "nope")], false, vec![]),
        el("input", vec![bound("type")], true, vec![]),
        el("fake-child", vec![on("x")], false, vec![]),
        el("p", vec![on("keyup")], false, vec![]),
        el("input", vec![stat("data-tui", "select"), on("focus")], true, vec![]),
    ]);
    let messages: Vec<&str> = findings.iter().map(|f| f.message.as_str()).collect();
    assert_eq!(
        messages,
        vec![
            "unknown data-tui kind 'nope': no built-in widget and no WidgetRegistration serves it (is the component's terminal twin linked and its cargo feature enabled?)",
            "a bound type on a plain <input> is not statically checkable \u{2014} the terminal mounts widgets by element type (ADR 0026)",
            "@x is not a notify event of <fake-child>; it notifies value-changed",
            "@keyup on <p> never dispatches in the terminal \u{2014} plain elements receive only @click (a web-only handler stays legal)",
            "@focus never dispatches on a terminal input widget; the terminal dispatches only @change (the commit) and @input (live text)",
        ]
    );
    assert!(findings.iter().all(|f| f.component == "x-test"));
}

#[test]
fn registered_kinds_are_served_and_unknown_children_are_left_alone() {
    let roots = vec![
        el("nav", vec![stat("data-tui", "tab-bar")], false, vec![]),
        el("other-child", vec![on("anything")], false, vec![]),
    ];
    let findings = check_template("x-test", &roots, &vec!["tab-bar".to_string()], &fake_children());
    assert!(findings.is_empty(), "{findings:?}");
    let unregistered = check_template("x-test", &roots, &Vec::new(), &fake_children());
    assert_eq!(errors(&unregistered).len(), 1);
}

#[test]
fn a_child_without_notify_events_says_so() {
    let children = vec![ChildDef { tag: "quiet-child".to_string(), notify: vec![] }];
    let roots = vec![el("quiet-child", vec![on("ping")], false, vec![])];
    let findings = check_template("x-test", &roots, &Vec::new(), &children);
    assert_eq!(findings.len(), 1);
    assert!(findings[0].message.ends_with("; it notifies nothing"));
    let two = vec![ChildDef {
        tag: "quiet-child".to_string(),
        notify: vec!["a-changed".to_string(), "b-changed".to_string()],
    }];
    let findings = check_template("x-test", &roots, &Vec::new(), &two);
    assert!(findings[0].message.ends_with("it notifies a-changed, b-changed"));
}

#[test]
fn the_first_attribute_of_a_name_decides_the_kind() {
    let element = TemplateElement {
        tag: "input".to_string(),
        attrs: vec![stat("tabindex", "  -2"), stat("type", "text")],
        custom: false,
        detected: true,
        children: vec![],
    };
    assert!(widget_kind(&element).is_none());
    let element = TemplateElement {
        tag: "div".to_string(),
        attrs: vec![stat("data-tui", "text-input"), bound("data-tui")],
        custom: false,
        detected: false,
        children: vec![],
    };
    assert!(matches!(widget_kind(&element), Some(WidgetKind::Static(kind)) if kind == "text-input"));
    let mut findings = Vec::new();
    check_element("x-test", "div", &element, &Vec::new(), &Vec::new(), &mut findings);
    assert!(findings.is_empty());
}

#[test]
fn joining_puts_the_separator_between_parts() {
    assert_eq!(join(&vec![], " > "), "");
    assert_eq!(join(&vec!["a".to_string()], " > "), "a");
    assert_eq!(join(&vec!["a".to_string(), "b".to_string(), "c".to_string()], ", "), "a, b, c");
}

use uic_tui::lint::compatibility_verdict;

#[test]
fn the_verdict_prints_warnings_and_fails_on_errors() {
    let findings = check(vec![
        el("p", vec![on("keyup")], false, vec![]),
        el("span", vec![stat("data-tui", "nope")], false, vec![]),
        el("div", vec![bound("data-tui")], false, vec![]),
    ]);
    let (warnings, failure) = compatibility_verdict(&findings);
    assert_eq!(warnings.len(), 2);
    assert!(warnings[0].starts_with("warning: <x-test> p: @keyup"));
    let failure = failure.expect("an error fails the suite");
    assert!(failure.starts_with("the terminal cannot serve 1 template binding(s):\nerror: <x-test> span[data-tui=nope]: unknown data-tui kind 'nope'"));
    let (warnings, failure) = compatibility_verdict(&check(vec![el("div", vec![on("click")], false, vec![])]));
    assert!(warnings.is_empty());
    assert!(failure.is_none());
}
