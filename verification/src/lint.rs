//! The terminal-compatibility lint over component templates. Two facts
//! only exist once a binary links: which `data-tui` kinds the widget
//! registry serves and which notify events a referenced child declares;
//! the lint walks a parsed template against both. Errors are bindings the
//! terminal can never serve; warnings mark web-only markup that is legal
//! but inert here (the browser legitimately has richer interaction).

use vstd::prelude::*;

use crate::strings::{
    chars_eq, chars_eq_str, chars_of, decimal, is_unicode_ws, is_unicode_ws_exec, push_chars,
    push_decimal,
};

verus! {

#[derive(Debug, Clone, Copy, PartialEq, Eq, Structural)]
pub enum Severity {
    /// The binding cannot work in the terminal; the lint fails on these.
    Error,
    /// Legal but inert in the terminal (web-only markup); reported only.
    Warning,
}

/// The word a severity prints as.
pub open spec fn severity_word(severity: Severity) -> Seq<char> {
    match severity {
        Severity::Error => "error"@,
        Severity::Warning => "warning"@,
    }
}

/// One lint finding, anchored by component tag and element breadcrumb.
#[derive(Debug)]
pub struct Finding {
    pub component: String,
    pub path: String,
    pub message: String,
    pub severity: Severity,
}

/// A finding's one-line report: `severity: <component> path: message`,
/// the path left out when empty.
pub open spec fn finding_line(
    severity: Severity,
    component: Seq<char>,
    path: Seq<char>,
    message: Seq<char>,
) -> Seq<char> {
    severity_word(severity) + ": <"@ + component + ">"@ + (if path.len() == 0 {
        Seq::empty()
    } else {
        " "@ + path
    }) + ": "@ + message
}

impl Finding {
    /// The finding's one-line report, as it displays.
    pub fn line(&self) -> (text: String)
        ensures
            text@ == finding_line(self.severity, self.component@, self.path@, self.message@),
    {
        let mut text = String::new();
        let word = match self.severity {
            Severity::Error => chars_of("error"),
            Severity::Warning => chars_of("warning"),
        };
        push_chars(&mut text, &word);
        push_chars(&mut text, &chars_of(": <"));
        push_chars(&mut text, &chars_of(self.component.as_str()));
        push_chars(&mut text, &chars_of(">"));
        let ghost head = text@;
        if !self.path.as_str().is_empty() {
            push_chars(&mut text, &chars_of(" "));
            push_chars(&mut text, &chars_of(self.path.as_str()));
        }
        push_chars(&mut text, &chars_of(": "));
        push_chars(&mut text, &chars_of(self.message.as_str()));
        proof {
            let tail: Seq<char> = if self.path@.len() == 0 {
                Seq::empty()
            } else {
                " "@ + self.path@
            };
            assert(head =~= severity_word(self.severity) + ": <"@ + self.component@ + ">"@);
            assert(text@ =~= head + tail + ": "@ + self.message@);
        }
        text
    }
}

/// An attribute of a template element, as the parser reports it.
#[derive(Debug)]
pub enum TemplateAttr {
    /// `name="value"`.
    Static { name: String, value: String },
    /// `name=${…}`: a hole the lint cannot see through.
    Bound { name: String },
    /// `@name=${…}`: an event listener.
    Event { name: String },
}

/// A template element: its tag, attributes in source order, whether the
/// tag names a custom element, whether element-type detection mounts a
/// widget for it (a plain form element whose static `type`, if any, the
/// detection table serves), and its children.
#[derive(Debug)]
pub struct TemplateElement {
    pub tag: String,
    pub attrs: Vec<TemplateAttr>,
    pub custom: bool,
    pub detected: bool,
    pub children: Vec<TemplateNode>,
}

/// A node of a parsed template.
#[derive(Debug)]
pub enum TemplateNode {
    Element(TemplateElement),
    /// A conditional: the branch that renders when it holds.
    If(Vec<TemplateNode>),
    /// A repeat: the body rendered per item.
    For(Vec<TemplateNode>),
    /// Text or a text hole.
    Text,
}

/// A custom element a template may reference: its tag and the events its
/// properties notify.
#[derive(Debug)]
pub struct ChildDef {
    pub tag: String,
    pub notify: Vec<String>,
}

/// An attribute's name; a listener's is its event name.
pub open spec fn attr_name(attr: TemplateAttr) -> Seq<char> {
    match attr {
        TemplateAttr::Static { name, .. } => name@,
        TemplateAttr::Bound { name } => name@,
        TemplateAttr::Event { name } => name@,
    }
}

/// The index of the first attribute with the name, or -1.
pub open spec fn find_attr(attrs: Seq<TemplateAttr>, wanted: Seq<char>) -> int
    decreases attrs.len(),
{
    if attrs.len() == 0 {
        -1
    } else {
        let k = find_attr(attrs.drop_last(), wanted);
        if k >= 0 {
            k
        } else if attr_name(attrs.last()) == wanted {
            attrs.len() - 1
        } else {
            -1
        }
    }
}

/// How an element resolves to a terminal widget, statically.
pub enum KindView {
    /// An explicit `data-tui` kind.
    Static(Seq<char>),
    /// A `data-tui` hole.
    Bound,
    /// A plain form element the mount detects by element type.
    Detected,
    /// A plain `<input>` whose `type` is a hole: the committed value decides
    /// at runtime.
    BoundType,
}

/// The element's `data-tui` kind, if it names one.
pub open spec fn data_tui_spec(attrs: Seq<TemplateAttr>) -> Option<KindView> {
    let k = find_attr(attrs, "data-tui"@);
    if k < 0 {
        None
    } else {
        match attrs[k] {
            TemplateAttr::Static { value, .. } => Some(KindView::Static(value@)),
            _ => Some(KindView::Bound),
        }
    }
}

/// The static value of the first attribute with the name; `None` when
/// there is none or it is not static.
pub open spec fn static_attr_spec(attrs: Seq<TemplateAttr>, wanted: Seq<char>) -> Option<Seq<char>> {
    let k = find_attr(attrs, wanted);
    if k < 0 {
        None
    } else {
        match attrs[k] {
            TemplateAttr::Static { value, .. } => Some(value@),
            _ => None,
        }
    }
}

/// Leading whitespace removed.
pub open spec fn trim_start(s: Seq<char>) -> Seq<char>
    decreases s.len(),
{
    if s.len() > 0 && is_unicode_ws(s[0]) {
        trim_start(s.skip(1))
    } else {
        s
    }
}

/// A negative `tabindex`: the presentation-twin opt-out from detection.
pub open spec fn opts_out(tabindex: Seq<char>) -> bool {
    trim_start(tabindex).len() > 0 && trim_start(tabindex)[0] == '-'
}

/// The plain form elements detection considers.
pub open spec fn is_form_tag(tag: Seq<char>) -> bool {
    tag == "input"@ || tag == "textarea"@ || tag == "select"@
}

/// How the element resolves to a terminal widget: an explicit `data-tui`,
/// the element-type detection of a plain form element that does not opt
/// out, or a bound `type` the lint cannot see through.
pub open spec fn widget_kind_spec(tag: Seq<char>, attrs: Seq<TemplateAttr>, detected: bool) -> Option<KindView> {
    match data_tui_spec(attrs) {
        Some(kind) => Some(kind),
        None => if !is_form_tag(tag) {
            None
        } else if (match static_attr_spec(attrs, "tabindex"@) {
            Some(value) => opts_out(value),
            None => false,
        }) {
            None
        } else {
            let t = find_attr(attrs, "type"@);
            if t < 0 || attrs[t] is Static {
                if detected {
                    Some(KindView::Detected)
                } else {
                    None
                }
            } else {
                Some(KindView::BoundType)
            }
        },
    }
}

proof fn lemma_find_attr(attrs: Seq<TemplateAttr>, wanted: Seq<char>)
    ensures
        -1 <= find_attr(attrs, wanted) < attrs.len(),
        find_attr(attrs, wanted) >= 0 ==> attr_name(attrs[find_attr(attrs, wanted)]) == wanted,
    decreases attrs.len(),
{
    if attrs.len() > 0 {
        lemma_find_attr(attrs.drop_last(), wanted);
    }
}

proof fn lemma_find_prefix(attrs: Seq<TemplateAttr>, n: int, wanted: Seq<char>)
    requires
        0 <= n <= attrs.len(),
        find_attr(attrs.take(n), wanted) >= 0,
    ensures
        find_attr(attrs, wanted) == find_attr(attrs.take(n), wanted),
    decreases attrs.len() - n,
{
    if n < attrs.len() {
        assert(attrs.take(n + 1).drop_last() =~= attrs.take(n));
        lemma_find_prefix(attrs, n + 1, wanted);
    } else {
        assert(attrs.take(n) =~= attrs);
    }
}

fn name_of(attr: &TemplateAttr) -> (name: &String)
    ensures
        name@ == attr_name(*attr),
{
    match attr {
        TemplateAttr::Static { name, .. } => name,
        TemplateAttr::Bound { name } => name,
        TemplateAttr::Event { name } => name,
    }
}

/// The first attribute with the name.
fn find_attr_exec(attrs: &Vec<TemplateAttr>, wanted: &str) -> (k: Option<usize>)
    ensures
        match k {
            Some(i) => i == find_attr(attrs@, wanted@),
            None => find_attr(attrs@, wanted@) < 0,
        },
{
    let mut i: usize = 0;
    while i < attrs.len()
        invariant
            0 <= i <= attrs@.len(),
            find_attr(attrs@.take(i as int), wanted@) < 0,
        decreases attrs@.len() - i,
    {
        assert(attrs@.take(i + 1).drop_last() =~= attrs@.take(i as int));
        assert(attrs@.take(i + 1).last() == attrs@[i as int]);
        let name = name_of(&attrs[i]);
        if chars_eq_str(&chars_of(name.as_str()), wanted) {
            proof {
                lemma_find_prefix(attrs@, i + 1, wanted@);
            }
            return Some(i);
        }
        i = i + 1;
    }
    assert(attrs@.take(attrs@.len() as int) =~= attrs@);
    None
}

/// How an element resolves to a terminal widget, statically.
#[derive(Debug)]
pub enum WidgetKind {
    Static(String),
    Bound,
    Detected,
    BoundType,
}

/// The kind a view describes.
pub open spec fn kind_view(kind: Option<WidgetKind>) -> Option<KindView> {
    match kind {
        Some(WidgetKind::Static(name)) => Some(KindView::Static(name@)),
        Some(WidgetKind::Bound) => Some(KindView::Bound),
        Some(WidgetKind::Detected) => Some(KindView::Detected),
        Some(WidgetKind::BoundType) => Some(KindView::BoundType),
        None => None,
    }
}

/// Whether a tabindex value opts out: its first non-blank character is a
/// minus sign.
pub(crate) fn opts_out_exec(value: &str) -> (r: bool)
    ensures
        r == opts_out(value@),
{
    let cs = chars_of(value);
    let mut i: usize = 0;
    assert(cs@.skip(0) =~= cs@);
    while i < cs.len() && is_unicode_ws_exec(cs[i])
        invariant
            0 <= i <= cs@.len(),
            trim_start(cs@.skip(i as int)) == trim_start(value@),
            cs@ == value@,
        decreases cs@.len() - i,
    {
        assert(cs@.skip(i as int).skip(1) =~= cs@.skip(i + 1));
        i = i + 1;
    }
    if i < cs.len() {
        assert(cs@.skip(i as int)[0] == cs@[i as int]);
    }
    i < cs.len() && cs[i] == '-'
}

/// How an element resolves to a terminal widget: an explicit `data-tui`,
/// the element-type detection of a plain form element, or a bound `type`
/// the lint cannot see through; `None` for elements the terminal renders
/// plainly.
pub fn widget_kind(el: &TemplateElement) -> (kind: Option<WidgetKind>)
    ensures
        kind_view(kind) == widget_kind_spec(el.tag@, el.attrs@, el.detected),
{
    proof {
        lemma_find_attr(el.attrs@, "data-tui"@);
        lemma_find_attr(el.attrs@, "tabindex"@);
        lemma_find_attr(el.attrs@, "type"@);
    }
    if let Some(k) = find_attr_exec(&el.attrs, "data-tui") {
        return match &el.attrs[k] {
            TemplateAttr::Static { value, .. } => Some(WidgetKind::Static(value.clone())),
            _ => Some(WidgetKind::Bound),
        };
    }
    let tag = chars_of(el.tag.as_str());
    if !(chars_eq_str(&tag, "input") || chars_eq_str(&tag, "textarea") || chars_eq_str(&tag, "select")) {
        return None;
    }
    if let Some(k) = find_attr_exec(&el.attrs, "tabindex") {
        if let TemplateAttr::Static { value, .. } = &el.attrs[k] {
            if opts_out_exec(value.as_str()) {
                return None;
            }
        }
    }
    match find_attr_exec(&el.attrs, "type") {
        Some(t) => match &el.attrs[t] {
            TemplateAttr::Static { .. } => if el.detected {
                Some(WidgetKind::Detected)
            } else {
                None
            },
            _ => Some(WidgetKind::BoundType),
        },
        None => if el.detected {
            Some(WidgetKind::Detected)
        } else {
            None
        },
    }
}

/// Appends a string slice.
fn push_str(text: &mut String, tail: &str)
    ensures
        final(text)@ == old(text)@ + tail@,
{
    push_chars(text, &chars_of(tail));
}

/// The views of a run of strings.
pub open spec fn views(strings: Seq<String>) -> Seq<Seq<char>> {
    strings.map_values(|s: String| s@)
}

/// Parts joined with a separator between each two.
pub open spec fn join_with(parts: Seq<Seq<char>>, sep: Seq<char>) -> Seq<char>
    decreases parts.len(),
{
    if parts.len() == 0 {
        Seq::empty()
    } else if parts.len() == 1 {
        parts[0]
    } else {
        join_with(parts.drop_last(), sep) + sep + parts.last()
    }
}

/// Strings joined with a separator between each two.
pub fn join(parts: &Vec<String>, sep: &str) -> (text: String)
    ensures
        text@ == join_with(views(parts@), sep@),
{
    let mut text = String::new();
    let mut i: usize = 0;
    while i < parts.len()
        invariant
            0 <= i <= parts@.len(),
            text@ == join_with(views(parts@).take(i as int), sep@),
        decreases parts@.len() - i,
    {
        assert(views(parts@).take(i + 1).drop_last() =~= views(parts@).take(i as int));
        if i > 0 {
            push_str(&mut text, sep);
        }
        push_str(&mut text, parts[i].as_str());
        proof {
            if i == 0 {
                assert(views(parts@).take(1)[0] == parts@[0]@);
                assert(text@ =~= parts@[0]@);
            }
        }
        i = i + 1;
    }
    assert(views(parts@).take(parts@.len() as int) =~= views(parts@));
    text
}

/// The widget kinds the runtime builds itself.
pub open spec fn builtin_kind(name: Seq<char>) -> bool {
    name == "date-input"@ || name == "text-input"@ || name == "number-input"@ || name
        == "text-area"@ || name == "select"@
}

/// Whether a `data-tui` kind is served: built in, or registered by a
/// linked widget registration.
pub open spec fn kind_served(name: Seq<char>, registered: Seq<Seq<char>>) -> bool {
    builtin_kind(name) || registered.contains(name)
}

/// A lint note: its severity and message.
pub type Note = (Severity, Seq<char>);

pub open spec fn unknown_kind_message(name: Seq<char>) -> Seq<char> {
    "unknown data-tui kind '"@ + name
        + "': no built-in widget and no WidgetRegistration serves it (is the component's terminal twin linked and its cargo feature enabled?)"@
}

pub open spec fn bound_kind_message() -> Seq<char> {
    "a bound data-tui kind is not statically checkable"@
}

pub open spec fn bound_type_message(tag: Seq<char>) -> Seq<char> {
    "a bound type on a plain <"@ + tag
        + "> is not statically checkable \u{2014} the terminal mounts widgets by element type (ADR 0026)"@
}

pub open spec fn widget_event_message(name: Seq<char>) -> Seq<char> {
    "@"@ + name
        + " never dispatches on a terminal input widget; the terminal dispatches only @change (the commit) and @input (live text)"@
}

pub open spec fn served_text(notify: Seq<Seq<char>>) -> Seq<char> {
    if notify.len() == 0 {
        "it notifies nothing"@
    } else {
        "it notifies "@ + join_with(notify, ", "@)
    }
}

pub open spec fn notify_message(name: Seq<char>, tag: Seq<char>, notify: Seq<Seq<char>>) -> Seq<char> {
    "@"@ + name + " is not a notify event of <"@ + tag + ">; "@ + served_text(notify)
}

pub open spec fn plain_event_message(name: Seq<char>, tag: Seq<char>) -> Seq<char> {
    "@"@ + name + " on <"@ + tag
        + "> never dispatches in the terminal \u{2014} plain elements receive only @click (a web-only handler stays legal)"@
}

/// What the element's widget kind itself earns: an unserved explicit kind
/// is an error, a bound kind or a bound type a warning.
pub open spec fn kind_notes(kind: Option<KindView>, tag: Seq<char>, registered: Seq<Seq<char>>) -> Seq<Note> {
    match kind {
        Some(KindView::Static(name)) => if kind_served(name, registered) {
            Seq::empty()
        } else {
            seq![(Severity::Error, unknown_kind_message(name))]
        },
        Some(KindView::Bound) => seq![(Severity::Warning, bound_kind_message())],
        Some(KindView::BoundType) => seq![(Severity::Warning, bound_type_message(tag))],
        _ => Seq::empty(),
    }
}

/// The index of the first child definition with the tag, or -1.
pub open spec fn find_child(children: Seq<ChildDef>, tag: Seq<char>) -> int
    decreases children.len(),
{
    if children.len() == 0 {
        -1
    } else {
        let k = find_child(children.drop_last(), tag);
        if k >= 0 {
            k
        } else if children.last().tag@ == tag {
            children.len() - 1
        } else {
            -1
        }
    }
}

/// The events a listener may be bound to: a widget dispatches only
/// `@change` and `@input`; a plain element whose bound type may mount a
/// widget lets those two pass; a custom element serves its notify events
/// (an unknown child is the registry check's finding); a plain element
/// receives only `@click`, other listeners staying legal for the web.
pub open spec fn event_note(
    kind: Option<KindView>,
    tag: Seq<char>,
    custom: bool,
    children: Seq<ChildDef>,
    name: Seq<char>,
) -> Option<Note> {
    let restricted = kind is Some && !(kind->0 is BoundType);
    if restricted {
        if name != "change"@ && name != "input"@ {
            Some((Severity::Error, widget_event_message(name)))
        } else {
            None
        }
    } else if kind is Some && (name == "change"@ || name == "input"@) {
        None
    } else if custom {
        let k = find_child(children, tag);
        if k < 0 {
            None
        } else if views(children[k].notify@).contains(name) {
            None
        } else {
            Some((Severity::Error, notify_message(name, tag, views(children[k].notify@))))
        }
    } else if name != "click"@ {
        Some((Severity::Warning, plain_event_message(name, tag)))
    } else {
        None
    }
}

/// The notes of the element's listeners, in attribute order.
pub open spec fn event_notes(
    attrs: Seq<TemplateAttr>,
    kind: Option<KindView>,
    tag: Seq<char>,
    custom: bool,
    children: Seq<ChildDef>,
) -> Seq<Note>
    decreases attrs.len(),
{
    if attrs.len() == 0 {
        Seq::empty()
    } else {
        let before = event_notes(attrs.drop_last(), kind, tag, custom, children);
        match attrs.last() {
            TemplateAttr::Event { name } => match event_note(kind, tag, custom, children, name@) {
                Some(note) => before.push(note),
                None => before,
            },
            _ => before,
        }
    }
}

/// Everything the lint notes on one element: its kind first, then its
/// listeners.
pub open spec fn element_notes(
    tag: Seq<char>,
    attrs: Seq<TemplateAttr>,
    custom: bool,
    detected: bool,
    registered: Seq<Seq<char>>,
    children: Seq<ChildDef>,
) -> Seq<Note> {
    let kind = widget_kind_spec(tag, attrs, detected);
    kind_notes(kind, tag, registered) + event_notes(attrs, kind, tag, custom, children)
}

/// A finding as plain values: severity, component, path, message.
pub open spec fn finding_view(f: Finding) -> (Severity, Seq<char>, Seq<char>, Seq<char>) {
    (f.severity, f.component@, f.path@, f.message@)
}

/// The findings as plain values.
pub open spec fn findings_view(findings: Seq<Finding>) -> Seq<(Severity, Seq<char>, Seq<char>, Seq<char>)> {
    findings.map_values(|f: Finding| finding_view(f))
}

/// Notes anchored at a component and a path.
pub open spec fn anchored(notes: Seq<Note>, component: Seq<char>, path: Seq<char>) -> Seq<
    (Severity, Seq<char>, Seq<char>, Seq<char>),
> {
    notes.map_values(|note: Note| (note.0, component, path, note.1))
}

proof fn lemma_anchored_push(notes: Seq<Note>, note: Note, component: Seq<char>, path: Seq<char>)
    ensures
        anchored(notes.push(note), component, path) == anchored(notes, component, path).push(
            (note.0, component, path, note.1),
        ),
{
    assert(anchored(notes.push(note), component, path) =~= anchored(notes, component, path).push(
        (note.0, component, path, note.1),
    ));
}

proof fn lemma_findings_push(findings: Seq<Finding>, f: Finding)
    ensures
        findings_view(findings.push(f)) == findings_view(findings).push(finding_view(f)),
{
    assert(findings_view(findings.push(f)) =~= findings_view(findings).push(finding_view(f)));
}

/// Records one finding.
fn report(
    findings: &mut Vec<Finding>,
    component: &str,
    path: &str,
    message: String,
    severity: Severity,
)
    ensures
        findings_view(final(findings)@) == findings_view(old(findings)@).push(
            (severity, component@, path@, message@),
        ),
{
    let f = Finding {
        component: crate::strings::string_of(&chars_of(component)),
        path: crate::strings::string_of(&chars_of(path)),
        message,
        severity,
    };
    proof {
        lemma_findings_push(findings@, f);
    }
    findings.push(f);
}

proof fn lemma_find_child(children: Seq<ChildDef>, tag: Seq<char>)
    ensures
        -1 <= find_child(children, tag) < children.len(),
    decreases children.len(),
{
    if children.len() > 0 {
        lemma_find_child(children.drop_last(), tag);
    }
}

proof fn lemma_child_prefix(children: Seq<ChildDef>, n: int, tag: Seq<char>)
    requires
        0 <= n <= children.len(),
        find_child(children.take(n), tag) >= 0,
    ensures
        find_child(children, tag) == find_child(children.take(n), tag),
    decreases children.len() - n,
{
    if n < children.len() {
        assert(children.take(n + 1).drop_last() =~= children.take(n));
        lemma_child_prefix(children, n + 1, tag);
    } else {
        assert(children.take(n) =~= children);
    }
}

/// The first child definition with the tag.
fn find_child_exec(children: &Vec<ChildDef>, tag: &str) -> (k: Option<usize>)
    ensures
        match k {
            Some(i) => i == find_child(children@, tag@),
            None => find_child(children@, tag@) < 0,
        },
{
    let mut i: usize = 0;
    while i < children.len()
        invariant
            0 <= i <= children@.len(),
            find_child(children@.take(i as int), tag@) < 0,
        decreases children@.len() - i,
    {
        assert(children@.take(i + 1).drop_last() =~= children@.take(i as int));
        assert(children@.take(i + 1).last() == children@[i as int]);
        if chars_eq_str(&chars_of(children[i].tag.as_str()), tag) {
            proof {
                lemma_child_prefix(children@, i + 1, tag@);
            }
            return Some(i);
        }
        i = i + 1;
    }
    assert(children@.take(children@.len() as int) =~= children@);
    None
}

/// Whether one of the strings equals the slice.
fn contains_str(strings: &Vec<String>, wanted: &str) -> (r: bool)
    ensures
        r == views(strings@).contains(wanted@),
{
    let w = chars_of(wanted);
    let mut i: usize = 0;
    while i < strings.len()
        invariant
            0 <= i <= strings@.len(),
            w@ == wanted@,
            forall|k: int| 0 <= k < i ==> strings@[k]@ != wanted@,
        decreases strings@.len() - i,
    {
        if chars_eq(&chars_of(strings[i].as_str()), &w) {
            assert(views(strings@)[i as int] == wanted@);
            return true;
        }
        i = i + 1;
    }
    proof {
        if views(strings@).contains(wanted@) {
            let k = choose|k: int| 0 <= k < views(strings@).len() && views(strings@)[k] == wanted@;
            assert(strings@[k]@ == wanted@);
        }
    }
    false
}

/// Whether a kind is served: built in or registered.
fn kind_served_exec(name: &str, registered: &Vec<String>) -> (r: bool)
    ensures
        r == kind_served(name@, views(registered@)),
{
    let n = chars_of(name);
    chars_eq_str(&n, "date-input") || chars_eq_str(&n, "text-input") || chars_eq_str(
        &n,
        "number-input",
    ) || chars_eq_str(&n, "text-area") || chars_eq_str(&n, "select") || contains_str(
        registered,
        name,
    )
}

/// The note, if any, of one listener.
fn event_note_exec(
    kind: &Option<WidgetKind>,
    tag: &str,
    custom: bool,
    children: &Vec<ChildDef>,
    name: &str,
) -> (note: Option<(Severity, String)>)
    ensures
        match note {
            Some((severity, message)) => event_note(kind_view(*kind), tag@, custom, children@, name@)
                == Some((severity, message@)),
            None => event_note(kind_view(*kind), tag@, custom, children@, name@) is None,
        },
{
    let n = chars_of(name);
    let lifecycle = chars_eq_str(&n, "change") || chars_eq_str(&n, "input");
    let restricted = match kind {
        Some(WidgetKind::BoundType) => false,
        Some(_) => true,
        None => false,
    };
    if restricted {
        if !lifecycle {
            let mut message = String::new();
            push_str(&mut message, "@");
            push_str(&mut message, name);
            push_str(
                &mut message,
                " never dispatches on a terminal input widget; the terminal dispatches only @change (the commit) and @input (live text)",
            );
            return Some((Severity::Error, message));
        }
        return None;
    }
    if kind.is_some() && lifecycle {
        return None;
    }
    if custom {
        proof {
            lemma_find_child(children@, tag@);
        }
        let k = match find_child_exec(children, tag) {
            Some(k) => k,
            None => {
                return None;
            },
        };
        let notify = &children[k].notify;
        if contains_str(notify, name) {
            return None;
        }
        let mut message = String::new();
        push_str(&mut message, "@");
        push_str(&mut message, name);
        push_str(&mut message, " is not a notify event of <");
        push_str(&mut message, tag);
        push_str(&mut message, ">; ");
        if notify.len() == 0 {
            push_str(&mut message, "it notifies nothing");
        } else {
            push_str(&mut message, "it notifies ");
            let listed = join(notify, ", ");
            push_str(&mut message, listed.as_str());
        }
        return Some((Severity::Error, message));
    }
    if !chars_eq_str(&n, "click") {
        let mut message = String::new();
        push_str(&mut message, "@");
        push_str(&mut message, name);
        push_str(&mut message, " on <");
        push_str(&mut message, tag);
        push_str(
            &mut message,
            "> never dispatches in the terminal \u{2014} plain elements receive only @click (a web-only handler stays legal)",
        );
        return Some((Severity::Warning, message));
    }
    None
}

/// Lints one element at the given breadcrumb path, appending its
/// findings: whether its widget kind is served, and whether each listener
/// can ever dispatch in the terminal. `registered` lists the kinds linked
/// widget registrations serve; `children` the custom elements a template
/// may reference.
pub fn check_element(
    component: &str,
    path: &str,
    el: &TemplateElement,
    registered: &Vec<String>,
    children: &Vec<ChildDef>,
    findings: &mut Vec<Finding>,
)
    ensures
        findings_view(final(findings)@) == findings_view(old(findings)@) + anchored(
            element_notes(el.tag@, el.attrs@, el.custom, el.detected, views(registered@), children@),
            component@,
            path@,
        ),
{
    let kind = widget_kind(el);
    let ghost kv = kind_view(kind);
    let ghost start = findings_view(findings@);
    match &kind {
        Some(WidgetKind::Static(name)) => {
            if !kind_served_exec(name.as_str(), registered) {
                let mut message = String::new();
                push_str(&mut message, "unknown data-tui kind '");
                push_str(&mut message, name.as_str());
                push_str(
                    &mut message,
                    "': no built-in widget and no WidgetRegistration serves it (is the component's terminal twin linked and its cargo feature enabled?)",
                );
                report(findings, component, path, message, Severity::Error);
            }
        },
        Some(WidgetKind::Bound) => {
            let message = crate::strings::string_of(
                &chars_of("a bound data-tui kind is not statically checkable"),
            );
            report(findings, component, path, message, Severity::Warning);
        },
        Some(WidgetKind::BoundType) => {
            let mut message = String::new();
            push_str(&mut message, "a bound type on a plain <");
            push_str(&mut message, el.tag.as_str());
            push_str(
                &mut message,
                "> is not statically checkable \u{2014} the terminal mounts widgets by element type (ADR 0026)",
            );
            report(findings, component, path, message, Severity::Warning);
        },
        _ => {},
    }
    let ghost kn = kind_notes(kv, el.tag@, views(registered@));
    proof {
        assert(findings_view(findings@) =~= start + anchored(kn, component@, path@));
    }
    let mut i: usize = 0;
    while i < el.attrs.len()
        invariant
            0 <= i <= el.attrs@.len(),
            kv == kind_view(kind),
            kv == widget_kind_spec(el.tag@, el.attrs@, el.detected),
            findings_view(findings@) == start + anchored(
                kn + event_notes(el.attrs@.take(i as int), kv, el.tag@, el.custom, children@),
                component@,
                path@,
            ),
        decreases el.attrs@.len() - i,
    {
        assert(el.attrs@.take(i + 1).drop_last() =~= el.attrs@.take(i as int));
        assert(el.attrs@.take(i + 1).last() == el.attrs@[i as int]);
        let ghost before = event_notes(el.attrs@.take(i as int), kv, el.tag@, el.custom, children@);
        if let TemplateAttr::Event { name } = &el.attrs[i] {
            match event_note_exec(&kind, el.tag.as_str(), el.custom, children, name.as_str()) {
                Some((severity, message)) => {
                    let ghost note = (severity, message@);
                    report(findings, component, path, message, severity);
                    proof {
                        lemma_anchored_push(kn + before, note, component@, path@);
                        assert(kn + before.push(note) =~= (kn + before).push(note));
                    }
                },
                None => {},
            }
        }
        i = i + 1;
    }
    assert(el.attrs@.take(el.attrs@.len() as int) =~= el.attrs@);
}

/// The breadcrumb label of an element: its tag, plus the widget kind where
/// `data-tui` names one.
pub open spec fn label_spec(tag: Seq<char>, attrs: Seq<TemplateAttr>) -> Seq<char> {
    match data_tui_spec(attrs) {
        Some(KindView::Static(kind)) => tag + "[data-tui="@ + kind + "]"@,
        _ => tag,
    }
}

/// The findings of a run of template nodes under a breadcrumb trail, in
/// document order.
pub open spec fn walk_spec(
    component: Seq<char>,
    nodes: Seq<TemplateNode>,
    crumbs: Seq<Seq<char>>,
    registered: Seq<Seq<char>>,
    children: Seq<ChildDef>,
) -> Seq<(Severity, Seq<char>, Seq<char>, Seq<char>)>
    decreases nodes,
{
    if nodes.len() == 0 {
        Seq::empty()
    } else {
        walk_spec(component, nodes.drop_last(), crumbs, registered, children) + node_spec(
            component,
            nodes.last(),
            crumbs,
            registered,
            children,
        )
    }
}

/// The findings of one template node: an element's own, anchored at its
/// breadcrumb path, then its children's; a conditional's branch and a
/// repeat's body as they stand; nothing for text.
pub open spec fn node_spec(
    component: Seq<char>,
    node: TemplateNode,
    crumbs: Seq<Seq<char>>,
    registered: Seq<Seq<char>>,
    children: Seq<ChildDef>,
) -> Seq<(Severity, Seq<char>, Seq<char>, Seq<char>)>
    decreases node,
{
    match node {
        TemplateNode::Element(el) => {
            let trail = crumbs.push(label_spec(el.tag@, el.attrs@));
            anchored(
                element_notes(el.tag@, el.attrs@, el.custom, el.detected, registered, children),
                component,
                join_with(trail, " > "@),
            ) + walk_spec(component, el.children@, trail, registered, children)
        },
        TemplateNode::If(then) => walk_spec(component, then@, crumbs, registered, children),
        TemplateNode::For(body) => walk_spec(component, body@, crumbs, registered, children),
        TemplateNode::Text => Seq::empty(),
    }
}

/// The breadcrumb label of an element.
fn label(el: &TemplateElement) -> (text: String)
    ensures
        text@ == label_spec(el.tag@, el.attrs@),
{
    proof {
        lemma_find_attr(el.attrs@, "data-tui"@);
    }
    let mut text = crate::strings::string_of(&chars_of(el.tag.as_str()));
    if let Some(k) = find_attr_exec(&el.attrs, "data-tui") {
        if let TemplateAttr::Static { value, .. } = &el.attrs[k] {
            push_str(&mut text, "[data-tui=");
            push_str(&mut text, value.as_str());
            push_str(&mut text, "]");
        }
    }
    text
}

/// Walks template nodes, appending the findings of every element with
/// its breadcrumb path; the trail is as it was when the walk returns.
fn walk(
    component: &str,
    nodes: &Vec<TemplateNode>,
    crumbs: &mut Vec<String>,
    registered: &Vec<String>,
    children: &Vec<ChildDef>,
    findings: &mut Vec<Finding>,
)
    ensures
        final(crumbs)@ == old(crumbs)@,
        findings_view(final(findings)@) == findings_view(old(findings)@) + walk_spec(
            component@,
            nodes@,
            views(old(crumbs)@),
            views(registered@),
            children@,
        ),
    decreases nodes@,
{
    let ghost start = findings_view(findings@);
    let ghost trail = views(crumbs@);
    let mut i: usize = 0;
    while i < nodes.len()
        invariant
            0 <= i <= nodes@.len(),
            crumbs@ == old(crumbs)@,
            trail == views(crumbs@),
            findings_view(findings@) == start + walk_spec(
                component@,
                nodes@.take(i as int),
                trail,
                views(registered@),
                children@,
            ),
        decreases nodes@.len() - i,
    {
        assert(nodes@.take(i + 1).drop_last() =~= nodes@.take(i as int));
        assert(nodes@.take(i + 1).last() == nodes@[i as int]);
        let ghost done = findings_view(findings@);
        match &nodes[i] {
            TemplateNode::Element(el) => {
                let name = label(el);
                crumbs.push(name);
                let ghost inner = views(crumbs@);
                assert(inner =~= trail.push(label_spec(el.tag@, el.attrs@)));
                let path = join(crumbs, " > ");
                check_element(component, path.as_str(), el, registered, children, findings);
                assert(decreases_to!(nodes@ => nodes@[i as int]));
                walk(component, &el.children, crumbs, registered, children, findings);
                crumbs.pop();
                assert(crumbs@ =~= old(crumbs)@);
                assert(findings_view(findings@) =~= done + node_spec(
                    component@,
                    nodes@[i as int],
                    trail,
                    views(registered@),
                    children@,
                ));
            },
            TemplateNode::If(then) => {
                assert(decreases_to!(nodes@ => nodes@[i as int]));
                walk(component, then, crumbs, registered, children, findings);
            },
            TemplateNode::For(body) => {
                assert(decreases_to!(nodes@ => nodes@[i as int]));
                walk(component, body, crumbs, registered, children, findings);
            },
            TemplateNode::Text => {},
        }
        assert(findings_view(findings@) =~= start + walk_spec(
            component@,
            nodes@.take(i + 1),
            trail,
            views(registered@),
            children@,
        ));
        i = i + 1;
    }
    assert(nodes@.take(nodes@.len() as int) =~= nodes@);
}

/// Lints one parsed template of a component: every element's findings,
/// in document order, anchored by the component's tag and the element's
/// breadcrumb (`div > input[data-tui=text-input]`). `registered` lists
/// the kinds linked widget registrations serve; `children` the custom
/// elements the template may reference.
pub fn check_template(
    component: &str,
    roots: &Vec<TemplateNode>,
    registered: &Vec<String>,
    children: &Vec<ChildDef>,
) -> (findings: Vec<Finding>)
    ensures
        findings_view(findings@) == walk_spec(
            component@,
            roots@,
            Seq::empty(),
            views(registered@),
            children@,
        ),
{
    let mut findings: Vec<Finding> = Vec::new();
    let mut crumbs: Vec<String> = Vec::new();
    assert(views(crumbs@) =~= Seq::<Seq<char>>::empty());
    assert(findings_view(findings@) =~= Seq::empty());
    walk(component, roots, &mut crumbs, registered, children, &mut findings);
    assert(findings_view(findings@) =~= walk_spec(
        component@,
        roots@,
        Seq::empty(),
        views(registered@),
        children@,
    ));
    findings
}

proof fn lemma_walk_component(
    component: Seq<char>,
    nodes: Seq<TemplateNode>,
    crumbs: Seq<Seq<char>>,
    registered: Seq<Seq<char>>,
    children: Seq<ChildDef>,
)
    ensures
        forall|i: int|
            0 <= i < walk_spec(component, nodes, crumbs, registered, children).len()
                ==> (#[trigger] walk_spec(component, nodes, crumbs, registered, children)[i]).1
                == component,
    decreases nodes,
{
    if nodes.len() > 0 {
        lemma_walk_component(component, nodes.drop_last(), crumbs, registered, children);
        lemma_node_component(component, nodes.last(), crumbs, registered, children);
        let a = walk_spec(component, nodes.drop_last(), crumbs, registered, children);
        let b = node_spec(component, nodes.last(), crumbs, registered, children);
        assert forall|i: int| 0 <= i < (a + b).len() implies (#[trigger] (a + b)[i]).1 == component by {
            if i < a.len() {
                assert((a + b)[i] == a[i]);
            } else {
                assert((a + b)[i] == b[i - a.len()]);
            }
        }
    }
}

proof fn lemma_node_component(
    component: Seq<char>,
    node: TemplateNode,
    crumbs: Seq<Seq<char>>,
    registered: Seq<Seq<char>>,
    children: Seq<ChildDef>,
)
    ensures
        forall|i: int|
            0 <= i < node_spec(component, node, crumbs, registered, children).len()
                ==> (#[trigger] node_spec(component, node, crumbs, registered, children)[i]).1
                == component,
    decreases node,
{
    match node {
        TemplateNode::Element(el) => {
            let trail = crumbs.push(label_spec(el.tag@, el.attrs@));
            lemma_walk_component(component, el.children@, trail, registered, children);
            let a = anchored(
                element_notes(el.tag@, el.attrs@, el.custom, el.detected, registered, children),
                component,
                join_with(trail, " > "@),
            );
            let b = walk_spec(component, el.children@, trail, registered, children);
            assert(node_spec(component, node, crumbs, registered, children) == a + b);
            assert forall|i: int| 0 <= i < (a + b).len() implies (#[trigger] (a + b)[i]).1
                == component by {
                if i < a.len() {
                    assert((a + b)[i] == a[i]);
                    assert(a[i].1 == component);
                } else {
                    assert((a + b)[i] == b[i - a.len()]);
                }
            }
        },
        TemplateNode::If(then) => {
            lemma_walk_component(component, then@, crumbs, registered, children);
            assert(node_spec(component, node, crumbs, registered, children) == walk_spec(
                component,
                then@,
                crumbs,
                registered,
                children,
            ));
        },
        TemplateNode::For(body) => {
            lemma_walk_component(component, body@, crumbs, registered, children);
            assert(node_spec(component, node, crumbs, registered, children) == walk_spec(
                component,
                body@,
                crumbs,
                registered,
                children,
            ));
        },
        TemplateNode::Text => {},
    }
}

/// Every finding of a template walk is anchored at the component it
/// lints.
pub proof fn law_findings_name_their_component(
    component: Seq<char>,
    roots: Seq<TemplateNode>,
    registered: Seq<Seq<char>>,
    children: Seq<ChildDef>,
)
    ensures
        forall|i: int|
            0 <= i < walk_spec(component, roots, Seq::empty(), registered, children).len()
                ==> (#[trigger] walk_spec(component, roots, Seq::empty(), registered, children)[i]).1
                == component,
{
    lemma_walk_component(component, roots, Seq::empty(), registered, children);
}

/// The listener contract: a terminal widget serves exactly `@change` (the
/// commit) and `@input` (live text), any other listener on it is an error;
/// on a plain element, `@click` is always served and any other listener
/// only warns.
pub proof fn law_listener_contract(
    kind: Option<KindView>,
    tag: Seq<char>,
    custom: bool,
    children: Seq<ChildDef>,
    name: Seq<char>,
)
    ensures
        kind is Some && !(kind->0 is BoundType) ==> (event_note(kind, tag, custom, children, name)
            is None <==> (name == "change"@ || name == "input"@)),
        kind is Some && !(kind->0 is BoundType) ==> (event_note(kind, tag, custom, children, name)
            matches Some((severity, _)) ==> severity == Severity::Error),
        kind is None && !custom ==> (event_note(kind, tag, custom, children, name) is None <==> name
            == "click"@),
        kind is None && !custom ==> (event_note(kind, tag, custom, children, name) matches Some(
            (severity, _),
        ) ==> severity == Severity::Warning),
{
}

/// The report lines of the findings of one severity, in order.
pub open spec fn lines_of(findings: Seq<Finding>, severity: Severity) -> Seq<Seq<char>>
    decreases findings.len(),
{
    if findings.len() == 0 {
        Seq::empty()
    } else {
        let before = lines_of(findings.drop_last(), severity);
        let f = findings.last();
        if f.severity == severity {
            before.push(finding_line(f.severity, f.component@, f.path@, f.message@))
        } else {
            before
        }
    }
}

/// The failure a suite reports for bindings the terminal cannot serve:
/// their count, then one line each.
pub open spec fn failure_message(errors: Seq<Seq<char>>) -> Seq<char> {
    "the terminal cannot serve "@ + decimal(errors.len()) + " template binding(s):\n"@ + join_with(
        errors,
        "\n"@,
    )
}

/// The verdict a test suite draws from the findings: the warning lines to
/// print, in order, and, when any finding is an error, the failure message
/// listing every error line.
pub fn compatibility_verdict(findings: &Vec<Finding>) -> (r: (Vec<String>, Option<String>))
    ensures
        views(r.0@) == lines_of(findings@, Severity::Warning),
        r.1 is Some <==> lines_of(findings@, Severity::Error).len() > 0,
        r.1 matches Some(message) ==> message@ == failure_message(lines_of(findings@, Severity::Error)),
{
    let mut warnings: Vec<String> = Vec::new();
    let mut errors: Vec<String> = Vec::new();
    let mut i: usize = 0;
    while i < findings.len()
        invariant
            0 <= i <= findings@.len(),
            views(warnings@) == lines_of(findings@.take(i as int), Severity::Warning),
            views(errors@) == lines_of(findings@.take(i as int), Severity::Error),
        decreases findings@.len() - i,
    {
        assert(findings@.take(i + 1).drop_last() =~= findings@.take(i as int));
        assert(findings@.take(i + 1).last() == findings@[i as int]);
        let line = findings[i].line();
        match findings[i].severity {
            Severity::Warning => {
                let ghost before = warnings@;
                warnings.push(line);
                assert(views(warnings@) =~= views(before).push(line@));
            },
            Severity::Error => {
                let ghost before = errors@;
                errors.push(line);
                assert(views(errors@) =~= views(before).push(line@));
            },
        }
        i = i + 1;
    }
    assert(findings@.take(findings@.len() as int) =~= findings@);
    if errors.len() == 0 {
        return (warnings, None);
    }
    let mut message = String::new();
    push_str(&mut message, "the terminal cannot serve ");
    push_decimal(&mut message, errors.len() as u64);
    push_str(&mut message, " template binding(s):\n");
    let listed = join(&errors, "\n");
    push_str(&mut message, listed.as_str());
    proof {
        assert(views(errors@).len() == errors@.len());
        assert(message@ =~= failure_message(views(errors@)));
    }
    (warnings, Some(message))
}

} // verus!
