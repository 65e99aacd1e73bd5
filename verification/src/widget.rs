//! Which terminal widget an element mounts. `data-tui` wins (the extension
//! point for registered kinds) and mounts anywhere; plain form elements
//! resolve by element type through the shared detection table, except
//! presentation twins opted out with a negative tabindex.

use vstd::prelude::*;

use crate::lint::{opts_out, opts_out_exec};
use crate::strings::{chars_eq_str, chars_of, parse_u16, parse_u16_spec, push_char, string_of};
use crate::text::{display_width, text_width};

verus! {

/// The index of the first attribute with the name, or -1.
pub open spec fn find_named(attrs: Seq<(String, String)>, name: Seq<char>) -> int
    decreases attrs.len(),
{
    if attrs.len() == 0 {
        -1
    } else {
        let k = find_named(attrs.drop_last(), name);
        if k >= 0 {
            k
        } else if attrs.last().0@ == name {
            attrs.len() - 1
        } else {
            -1
        }
    }
}

/// The value of the first attribute with the name.
pub open spec fn attr_spec(attrs: Seq<(String, String)>, name: Seq<char>) -> Option<Seq<char>> {
    let k = find_named(attrs, name);
    if k >= 0 {
        Some(attrs[k].1@)
    } else {
        None
    }
}

/// ASCII letters lowered, everything else kept: `str::to_ascii_lowercase`.
pub open spec fn ascii_lower(s: Seq<char>) -> Seq<char> {
    s.map_values(|c: char| if 'A' <= c <= 'Z' {
        ((c as u32) + 32) as char
    } else {
        c
    })
}

/// The widget an element mounts, with its date variant (hide the time,
/// hide the seconds): an explicit `data-tui` kind with the variant its
/// `hide-time` and `hide-seconds` flags ask for; otherwise, unless a
/// negative tabindex opts the element out, the kind the detection table
/// serves (`native`, looked up for the tag and the lowercased `type`),
/// with the variant the type implies: a `date` input is date-only, other
/// detected dates carry minutes.
pub open spec fn detect_spec(attrs: Seq<(String, String)>, native: Option<Seq<char>>) -> Option<
    (Seq<char>, (bool, bool)),
> {
    match attr_spec(attrs, "data-tui"@) {
        Some(kind) => Some(
            (kind, (attr_spec(attrs, "hide-time"@) is Some, attr_spec(attrs, "hide-seconds"@) is Some)),
        ),
        None => if (match attr_spec(attrs, "tabindex"@) {
            Some(value) => opts_out(value),
            None => false,
        }) {
            None
        } else {
            match native {
                Some(kind) => Some(
                    (
                        kind,
                        if kind == "date-input"@ {
                            match attr_spec(attrs, "type"@) {
                                Some(t) => if ascii_lower(t) == "date"@ {
                                    (true, true)
                                } else {
                                    (false, true)
                                },
                                None => (false, true),
                            }
                        } else {
                            (false, false)
                        },
                    ),
                ),
                None => None,
            }
        },
    }
}

proof fn lemma_named_prefix(attrs: Seq<(String, String)>, n: int, name: Seq<char>)
    requires
        0 <= n <= attrs.len(),
        find_named(attrs.take(n), name) >= 0,
    ensures
        find_named(attrs, name) == find_named(attrs.take(n), name),
    decreases attrs.len() - n,
{
    if n < attrs.len() {
        assert(attrs.take(n + 1).drop_last() =~= attrs.take(n));
        lemma_named_prefix(attrs, n + 1, name);
    } else {
        assert(attrs.take(n) =~= attrs);
    }
}

proof fn lemma_named_bounds(attrs: Seq<(String, String)>, name: Seq<char>)
    ensures
        -1 <= find_named(attrs, name) < attrs.len(),
    decreases attrs.len(),
{
    if attrs.len() > 0 {
        lemma_named_bounds(attrs.drop_last(), name);
    }
}

/// Whether an attribute with the name is present.
pub open spec fn carries(attrs: Seq<(String, String)>, name: Seq<char>) -> bool {
    exists|i: int| 0 <= i < attrs.len() && (#[trigger] attrs[i]).0@ == name
}

proof fn lemma_find_named_first(attrs: Seq<(String, String)>, name: Seq<char>)
    ensures
        (find_named(attrs, name) >= 0) == carries(attrs, name),
        find_named(attrs, name) >= 0 ==> find_named(attrs, name) < attrs.len() && attrs[find_named(
            attrs,
            name,
        )].0@ == name && forall|j: int| 0 <= j < find_named(attrs, name) ==> (#[trigger] attrs[j]).0@ != name,
    decreases attrs.len(),
{
    if attrs.len() > 0 {
        let rest = attrs.drop_last();
        lemma_find_named_first(rest, name);
        if carries(attrs, name) && !carries(rest, name) {
            let i = choose|i: int| 0 <= i < attrs.len() && (#[trigger] attrs[i]).0@ == name;
            if i < rest.len() {
                assert(rest[i].0@ == name);
            }
        }
        if carries(rest, name) {
            let i = choose|i: int| 0 <= i < rest.len() && (#[trigger] rest[i]).0@ == name;
            assert(attrs[i].0@ == name);
        }
        if find_named(rest, name) >= 0 {
            assert forall|j: int| 0 <= j < find_named(attrs, name) implies (#[trigger] attrs[j]).0@ != name by {
                assert(attrs[j] == rest[j]);
            }
        } else if attrs.last().0@ == name {
            assert forall|j: int| 0 <= j < find_named(attrs, name) implies (#[trigger] attrs[j]).0@ != name by {
                assert(attrs[j] == rest[j]);
                if attrs[j].0@ == name {
                    assert(rest[j].0@ == name);
                }
            }
        }
    }
}

/// An explicit `data-tui` mounts its kind wherever it stands, whatever
/// the element's type or tabindex: the kind is the value of the first
/// `data-tui` attribute, and the date variant hides the time exactly when
/// a `hide-time` attribute is present and the seconds exactly when a
/// `hide-seconds` attribute is. Without `data-tui`, the detection table
/// decides: nothing without its answer, and a kind other than the date
/// input carries no variant flag.
pub proof fn law_explicit_kind_and_variant(attrs: Seq<(String, String)>, native: Option<Seq<char>>)
    ensures
        carries(attrs, "data-tui"@) ==> (detect_spec(attrs, native) matches Some((kind, (hide_time, hide_seconds)))
            && hide_time == carries(attrs, "hide-time"@) && hide_seconds == carries(attrs, "hide-seconds"@)
            && exists|i: int|
            0 <= i < attrs.len() && (#[trigger] attrs[i]).0@ == "data-tui"@ && attrs[i].1@ == kind && forall|
                j: int,
            | 0 <= j < i ==> (#[trigger] attrs[j]).0@ != "data-tui"@),
        !carries(attrs, "data-tui"@) && native is None ==> detect_spec(attrs, native) is None,
        !carries(attrs, "data-tui"@) && (native matches Some(k) && k != "date-input"@) ==> (detect_spec(
            attrs,
            native,
        ) matches Some((_, variant)) ==> variant == (false, false)),
        !carries(attrs, "data-tui"@) && native is Some ==> (detect_spec(attrs, native) matches Some((kind, _))
            ==> kind == native->0),
        !carries(attrs, "data-tui"@) && native == Some("date-input"@) ==> (detect_spec(attrs, native) matches Some(
            (_, (date_only, hide_seconds)),
        ) ==> hide_seconds && (date_only ==> carries(attrs, "type"@))),
{
    lemma_find_named_first(attrs, "type"@);
    lemma_find_named_first(attrs, "data-tui"@);
    lemma_find_named_first(attrs, "hide-time"@);
    lemma_find_named_first(attrs, "hide-seconds"@);
    if carries(attrs, "data-tui"@) {
        let i = find_named(attrs, "data-tui"@);
        assert(attrs[i].0@ == "data-tui"@);
    }
}

/// The value of the first attribute with the name.
pub fn attr<'a>(attrs: &'a Vec<(String, String)>, name: &str) -> (value: Option<&'a String>)
    ensures
        match value {
            Some(v) => attr_spec(attrs@, name@) == Some(v@),
            None => attr_spec(attrs@, name@) is None,
        },
{
    proof {
        lemma_named_bounds(attrs@, name@);
    }
    let mut i: usize = 0;
    while i < attrs.len()
        invariant
            0 <= i <= attrs@.len(),
            find_named(attrs@.take(i as int), name@) < 0,
        decreases attrs@.len() - i,
    {
        assert(attrs@.take(i + 1).drop_last() =~= attrs@.take(i as int));
        assert(attrs@.take(i + 1).last() == attrs@[i as int]);
        if chars_eq_str(&chars_of(attrs[i].0.as_str()), name) {
            proof {
                lemma_named_prefix(attrs@, i + 1, name@);
            }
            return Some(&attrs[i].1);
        }
        i = i + 1;
    }
    assert(attrs@.take(attrs@.len() as int) =~= attrs@);
    None
}

/// The text with its ASCII letters lowered.
pub fn to_ascii_lower(text: &str) -> (lower: String)
    ensures
        lower@ == ascii_lower(text@),
{
    let cs = chars_of(text);
    let mut lower = String::new();
    let mut i: usize = 0;
    while i < cs.len()
        invariant
            0 <= i <= cs@.len(),
            cs@ == text@,
            lower@ == ascii_lower(cs@.take(i as int)),
        decreases cs@.len() - i,
    {
        let c = cs[i];
        let l = if 'A' <= c && c <= 'Z' {
            ((c as u8) + 32) as char
        } else {
            c
        };
        push_char(&mut lower, l);
        assert(ascii_lower(cs@.take(i + 1)) =~= ascii_lower(cs@.take(i as int)).push(l));
        i = i + 1;
    }
    assert(cs@.take(cs@.len() as int) =~= cs@);
    lower
}

/// The widget an element with these attributes mounts, and its date
/// variant; `native` is the detection table's kind for the element's tag
/// and lowercased `type`, if it serves one.
pub fn detect_kind(attrs: &Vec<(String, String)>, native: Option<&str>) -> (r: Option<(String, (bool, bool))>)
    ensures
        match r {
            Some((kind, variant)) => detect_spec(attrs@, match native {
                Some(n) => Some(n@),
                None => None,
            }) == Some((kind@, variant)),
            None => detect_spec(attrs@, match native {
                Some(n) => Some(n@),
                None => None,
            }) is None,
        },
{
    if let Some(kind) = attr(attrs, "data-tui") {
        let variant = (attr(attrs, "hide-time").is_some(), attr(attrs, "hide-seconds").is_some());
        return Some((kind.clone(), variant));
    }
    if let Some(value) = attr(attrs, "tabindex") {
        if opts_out_exec(value.as_str()) {
            return None;
        }
    }
    let kind = match native {
        Some(kind) => kind,
        None => {
            return None;
        },
    };
    let variant = if chars_eq_str(&chars_of(kind), "date-input") {
        match attr(attrs, "type") {
            Some(t) => if chars_eq_str(&chars_of(to_ascii_lower(t.as_str()).as_str()), "date") {
                (true, true)
            } else {
                (false, true)
            },
            None => (false, true),
        }
    } else {
        (false, false)
    };
    Some((crate::strings::string_of(&chars_of(kind)), variant))
}

/// The line cap a component's `max-lines` attribute asks for: a 16-bit
/// numeral of at least one line, 10 when absent or anything else.
pub open spec fn max_lines_spec(attr: Option<Seq<char>>) -> u16 {
    match attr {
        Some(text) => match parse_u16_spec(text) {
            Some(n) => if n >= 1 {
                n
            } else {
                10
            },
            None => 10,
        },
        None => 10,
    }
}

/// The line cap of a `max-lines` attribute value.
pub fn max_lines(attr: Option<&str>) -> (lines: u16)
    ensures
        lines == max_lines_spec(match attr {
            Some(text) => Some(text@),
            None => None,
        }),
{
    match attr {
        Some(text) => match parse_u16(&chars_of(text)) {
            Some(n) => if n >= 1 {
                n
            } else {
                10
            },
            None => 10,
        },
        None => 10,
    }
}

/// A textarea's height: one line to start, like the browser's initial
/// height, growing with its content (the editor counts a trailing empty
/// line the browser never shows) up to the cap, itself at least one line.
pub open spec fn textarea_height_spec(len_lines: usize, max_lines: u16) -> u16 {
    let counted = len_lines as u16;
    let lines: u16 = if counted <= 1 {
        1
    } else {
        (counted - 1) as u16
    };
    let cap: u16 = if max_lines >= 1 {
        max_lines
    } else {
        1
    };
    if lines > cap {
        cap
    } else {
        lines
    }
}

/// A textarea is one row tall per line it shows, the editor's trailing
/// empty line not counted, at least one row and at most its cap (itself at
/// least one): for up to 65535 counted lines, the height is the shown line
/// count clamped between one and the cap, and more lines never make it
/// shorter.
pub proof fn law_textarea_height(len_lines: usize, more: usize, max_lines: u16)
    requires
        len_lines <= more <= u16::MAX,
    ensures
        ({
            let cap: int = if max_lines >= 1 { max_lines as int } else { 1 };
            let shown: int = if len_lines <= 1 { 1 } else { len_lines - 1 };
            &&& textarea_height_spec(len_lines, max_lines) as int == if shown > cap { cap } else { shown }
            &&& textarea_height_spec(len_lines, max_lines) <= textarea_height_spec(more, max_lines)
        }),
{
    assert(len_lines as u16 == len_lines);
    assert(more as u16 == more);
}

/// A textarea's height in cells for its line count and line cap.
pub fn textarea_height(len_lines: usize, max_lines: u16) -> (height: u16)
    ensures
        height == textarea_height_spec(len_lines, max_lines),
        1 <= height <= (if max_lines >= 1 {
            max_lines
        } else {
            1
        }),
{
    let counted = len_lines as u16;
    let lines = counted.saturating_sub(1);
    let lines = if lines >= 1 {
        lines
    } else {
        1
    };
    let cap = if max_lines >= 1 {
        max_lines
    } else {
        1
    };
    if lines > cap {
        cap
    } else {
        lines
    }
}

/// One row of a select's options: its value, and the compact and full
/// labels it may carry.
#[derive(Debug)]
pub struct OptionRow {
    pub value: String,
    pub short: Option<String>,
    pub label: Option<String>,
}

/// The compact label of an option, `short || label || value`: its short
/// label, else its label, else its value, an empty label counting as none.
pub open spec fn short_label_spec(row: OptionRow) -> Seq<char> {
    match row.short {
        Some(s) if s@.len() > 0 => s@,
        _ => match row.label {
            Some(l) if l@.len() > 0 => l@,
            _ => row.value@,
        },
    }
}

/// The closed select's line from the `k`-th option on: the compact label
/// of the first option holding the value, empty when none does.
pub open spec fn closed_label_from(options: Seq<OptionRow>, k: int, value: Seq<char>) -> Seq<char>
    decreases options.len() - k,
{
    if k < 0 || k >= options.len() {
        Seq::empty()
    } else if options[k].value@ == value {
        short_label_spec(options[k])
    } else {
        closed_label_from(options, k + 1, value)
    }
}

proof fn lemma_closed_first(options: Seq<OptionRow>, k: int, value: Seq<char>, i: int)
    requires
        0 <= k <= i < options.len(),
        options[i].value@ == value,
        forall|j: int| k <= j < i ==> (#[trigger] options[j]).value@ != value,
    ensures
        closed_label_from(options, k, value) == short_label_spec(options[i]),
    decreases i - k,
{
    if k < i {
        lemma_closed_first(options, k + 1, value, i);
    }
}

proof fn lemma_closed_none(options: Seq<OptionRow>, k: int, value: Seq<char>)
    requires
        0 <= k,
        forall|j: int| k <= j < options.len() ==> (#[trigger] options[j]).value@ != value,
    ensures
        closed_label_from(options, k, value) == Seq::<char>::empty(),
    decreases options.len() - k,
{
    if k < options.len() {
        lemma_closed_none(options, k + 1, value);
    }
}

/// The closed select shows the compact label of the first option holding
/// its value and nothing when none does; the compact label is the short
/// label where it is not empty, else the label where that is not empty,
/// else the value itself.
pub proof fn law_closed_label(options: Seq<OptionRow>, value: Seq<char>, i: int)
    ensures
        (forall|j: int| 0 <= j < options.len() ==> (#[trigger] options[j]).value@ != value) ==> closed_label_from(
            options,
            0,
            value,
        ).len() == 0,
        0 <= i < options.len() && options[i].value@ == value && (forall|j: int|
            0 <= j < i ==> (#[trigger] options[j]).value@ != value) ==> closed_label_from(options, 0, value)
            == short_label_spec(options[i]),
        0 <= i < options.len() ==> ({
            let o = options[i];
            &&& (o.short matches Some(s) ==> (s@.len() > 0 ==> short_label_spec(o) == s@))
            &&& (!(o.short matches Some(s) && s@.len() > 0) && (o.label matches Some(l) && l@.len() > 0)
                ==> short_label_spec(o) == o.label->0@)
            &&& (!(o.short matches Some(s) && s@.len() > 0) && !(o.label matches Some(l) && l@.len() > 0)
                ==> short_label_spec(o) == o.value@)
        }),
{
    if forall|j: int| 0 <= j < options.len() ==> (#[trigger] options[j]).value@ != value {
        lemma_closed_none(options, 0, value);
    }
    if 0 <= i < options.len() && options[i].value@ == value && (forall|j: int|
        0 <= j < i ==> (#[trigger] options[j]).value@ != value) {
        lemma_closed_first(options, 0, value, i);
    }
}

/// The closed select's line: the compact label of the first option
/// holding the current value, empty when none does.
pub fn closed_label(options: &Vec<OptionRow>, value: &str) -> (label: String)
    ensures
        label@ == closed_label_from(options@, 0, value@),
{
    let mut k: usize = 0;
    while k < options.len()
        invariant
            0 <= k <= options@.len(),
            closed_label_from(options@, k as int, value@) == closed_label_from(options@, 0, value@),
        decreases options@.len() - k,
    {
        let row = &options[k];
        if chars_eq_str(&chars_of(row.value.as_str()), value) {
            let short = match &row.short {
                Some(s) => chars_of(s.as_str()),
                None => Vec::new(),
            };
            if short.len() > 0 {
                return string_of(&short);
            }
            let label = match &row.label {
                Some(l) => chars_of(l.as_str()),
                None => Vec::new(),
            };
            if label.len() > 0 {
                return string_of(&label);
            }
            return string_of(&chars_of(row.value.as_str()));
        }
        k = k + 1;
    }
    String::new()
}

/// The width a closed select hugs: its label's cells plus the three marker
/// cells, in 16 bits.
pub open spec fn select_width_spec(label: Seq<char>) -> u16 {
    let w = text_width(label) as u16;
    if w as int + 3 > u16::MAX {
        u16::MAX
    } else {
        (w + 3) as u16
    }
}

/// The width a closed select sizes to: its label plus three marker cells.
pub fn select_width(label: &str) -> (width: u16)
    ensures
        width == select_width_spec(label@),
{
    let w = display_width(label) as u16;
    w.saturating_add(3)
}

} // verus!
