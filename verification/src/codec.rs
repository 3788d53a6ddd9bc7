//! The configuration document format: a flat object of string keys and
//! scalar values. The three known fields are read into the record, unknown
//! scalar fields are skipped, and any malformed document is rejected so the
//! loader can fall back to defaults.

use vstd::prelude::*;
use crate::config::Config;
use crate::config::ConfigView;
use crate::config::default_config;
use crate::text::match_at;
use crate::text::starts_with;

verus! {

/// Document whitespace.
pub open spec fn is_json_ws(c: char) -> bool {
    c == ' ' || c == '\t' || c == '\n' || c == '\r'
}

/// `s` without its leading whitespace.
pub open spec fn skip_ws(s: Seq<char>) -> Seq<char>
    decreases s.len(),
{
    if s.len() > 0 && is_json_ws(s[0]) {
        skip_ws(s.skip(1))
    } else {
        s
    }
}

/// Read a string body (the opening quote already consumed): the unescaped
/// content and the remainder after the closing quote. A backslash makes
/// the next character literal; an unterminated string fails.
pub open spec fn parse_str_body(s: Seq<char>) -> Option<(Seq<char>, Seq<char>)>
    decreases s.len(),
{
    if s.len() == 0 {
        None
    } else if s[0] == '"' {
        Some((Seq::empty(), s.skip(1)))
    } else if s[0] == '\\' {
        if s.len() >= 2 {
            match parse_str_body(s.skip(2)) {
                Some((c, r)) => Some((seq![s[1]] + c, r)),
                None => None,
            }
        } else {
            None
        }
    } else {
        match parse_str_body(s.skip(1)) {
            Some((c, r)) => Some((seq![s[0]] + c, r)),
            None => None,
        }
    }
}

/// A character that may continue a number.
pub open spec fn is_num_char(c: char) -> bool {
    (48 <= c as u32 <= 57) || c == '-' || c == '+' || c == '.' || c == 'e' || c == 'E'
}

/// A character that may begin a number.
pub open spec fn is_num_start(c: char) -> bool {
    (48 <= c as u32 <= 57) || c == '-'
}

/// `s` without its leading run of number characters.
pub open spec fn skip_num(s: Seq<char>) -> Seq<char>
    decreases s.len(),
{
    if s.len() > 0 && is_num_char(s[0]) {
        skip_num(s.skip(1))
    } else {
        s
    }
}

/// A scalar document value. Numbers are recognised but carry no value:
/// no known field holds one.
pub ghost enum JsonScalar {
    Bool(bool),
    Str(Seq<char>),
    Null,
    Number,
}

/// Read one scalar value and return the remainder.
pub open spec fn parse_scalar(s: Seq<char>) -> Option<(JsonScalar, Seq<char>)> {
    if starts_with(s, "true"@) {
        Some((JsonScalar::Bool(true), s.skip("true"@.len() as int)))
    } else if starts_with(s, "false"@) {
        Some((JsonScalar::Bool(false), s.skip("false"@.len() as int)))
    } else if starts_with(s, "null"@) {
        Some((JsonScalar::Null, s.skip("null"@.len() as int)))
    } else if s.len() > 0 && s[0] == '"' {
        match parse_str_body(s.skip(1)) {
            Some((c, r)) => Some((JsonScalar::Str(c), r)),
            None => None,
        }
    } else if s.len() > 0 && is_num_start(s[0]) {
        Some((JsonScalar::Number, skip_num(s.skip(1))))
    } else {
        None
    }
}

/// Skip one value of any shape — a scalar, or a balanced array or object
/// whose elements are skipped recursively — and return the remainder.
/// Unknown fields are ignored on read whatever value they hold.
pub open spec fn skip_value(s: Seq<char>) -> Option<Seq<char>>
    decreases s.len(), 0int,
{
    match parse_scalar(s) {
        Some((_, r)) => Some(r),
        None => {
            if s.len() > 0 && s[0] == '[' {
                let r1 = skip_ws(s.skip(1));
                if r1.len() < s.len() {
                    if r1.len() > 0 && r1[0] == ']' {
                        Some(r1.skip(1))
                    } else {
                        skip_elements(r1)
                    }
                } else {
                    None
                }
            } else if s.len() > 0 && s[0] == '{' {
                let r1 = skip_ws(s.skip(1));
                if r1.len() < s.len() {
                    if r1.len() > 0 && r1[0] == '}' {
                        Some(r1.skip(1))
                    } else {
                        skip_fields(r1)
                    }
                } else {
                    None
                }
            } else {
                None
            }
        },
    }
}

/// Skip the comma-separated values of an array, `s` standing at the first
/// one, up to and including the closing bracket.
pub open spec fn skip_elements(s: Seq<char>) -> Option<Seq<char>>
    decreases s.len(), 1int,
{
    match skip_value(s) {
        Some(r) => {
            let r2 = skip_ws(r);
            if r2.len() > 0 && r2[0] == ',' {
                let r3 = skip_ws(r2.skip(1));
                if r3.len() < s.len() {
                    skip_elements(r3)
                } else {
                    None
                }
            } else if r2.len() > 0 && r2[0] == ']' {
                Some(r2.skip(1))
            } else {
                None
            }
        },
        None => None,
    }
}

/// Skip the members of a nested object, `s` standing at the first key, up
/// to and including the closing brace.
pub open spec fn skip_fields(s: Seq<char>) -> Option<Seq<char>>
    decreases s.len(), 1int,
{
    if s.len() > 0 && s[0] == '"' {
        match parse_str_body(s.skip(1)) {
            Some((_, r1)) => {
                let r2 = skip_ws(r1);
                if r2.len() > 0 && r2[0] == ':' {
                    let r3 = skip_ws(r2.skip(1));
                    if r3.len() <= s.len() {
                        match skip_value(r3) {
                            Some(r4) => {
                                let r5 = skip_ws(r4);
                                if r5.len() > 0 && r5[0] == ',' {
                                    let r6 = skip_ws(r5.skip(1));
                                    if r6.len() < s.len() {
                                        skip_fields(r6)
                                    } else {
                                        None
                                    }
                                } else if r5.len() > 0 && r5[0] == '}' {
                                    Some(r5.skip(1))
                                } else {
                                    None
                                }
                            },
                            None => None,
                        }
                    } else {
                        None
                    }
                } else {
                    None
                }
            },
            None => None,
        }
    } else {
        None
    }
}

/// Fold one member into the record: a known key of the right type sets
/// its field, everything else leaves the record as it was (absent or
/// unparseable fields fall back to their defaults).
pub open spec fn apply_member(acc: ConfigView, key: Seq<char>, v: JsonScalar) -> ConfigView {
    if key == "start_at_login"@ {
        match v {
            JsonScalar::Bool(b) => ConfigView { start_at_login: b, ..acc },
            _ => acc,
        }
    } else if key == "lapsus_rust_path"@ {
        match v {
            JsonScalar::Str(p) => ConfigView { lapsus_rust_path: Some(p), ..acc },
            JsonScalar::Null => ConfigView { lapsus_rust_path: None, ..acc },
            _ => acc,
        }
    } else if key == "show_dock_icon"@ {
        match v {
            JsonScalar::Bool(b) => ConfigView { show_dock_icon: b, ..acc },
            _ => acc,
        }
    } else {
        acc
    }
}

/// Read the members of the object, `s` standing at a key, until the
/// closing brace; returns the folded record and the remainder after the
/// brace. A scalar value is folded through `apply_member`; a composite
/// value is skipped whole, leaving the record as it was.
pub open spec fn parse_members(s: Seq<char>, acc: ConfigView) -> Option<(ConfigView, Seq<char>)>
    decreases s.len(),
{
    if s.len() > 0 && s[0] == '"' {
        match parse_str_body(s.skip(1)) {
            Some((key, r1)) => {
                let r2 = skip_ws(r1);
                if r2.len() > 0 && r2[0] == ':' {
                    let r3 = skip_ws(r2.skip(1));
                    let stepped = match parse_scalar(r3) {
                        Some((v, r4)) => Some((apply_member(acc, key, v), r4)),
                        None => match skip_value(r3) {
                            Some(r4) => Some((acc, r4)),
                            None => None,
                        },
                    };
                    match stepped {
                        Some((acc2, r4)) => {
                            let r5 = skip_ws(r4);
                            if r5.len() > 0 && r5[0] == ',' {
                                let r6 = skip_ws(r5.skip(1));
                                if r6.len() < s.len() {
                                    parse_members(r6, acc2)
                                } else {
                                    None
                                }
                            } else if r5.len() > 0 && r5[0] == '}' {
                                Some((acc2, r5.skip(1)))
                            } else {
                                None
                            }
                        },
                        None => None,
                    }
                } else {
                    None
                }
            },
            None => None,
        }
    } else {
        None
    }
}

/// Read a whole document: one object, nothing but whitespace after it.
pub open spec fn parse_doc(s: Seq<char>) -> Option<ConfigView> {
    let r0 = skip_ws(s);
    if r0.len() > 0 && r0[0] == '{' {
        let r1 = skip_ws(r0.skip(1));
        if r1.len() > 0 && r1[0] == '}' {
            if skip_ws(r1.skip(1)).len() == 0 {
                Some(default_config())
            } else {
                None
            }
        } else {
            match parse_members(r1, default_config()) {
                Some((c, r2)) => if skip_ws(r2).len() == 0 {
                    Some(c)
                } else {
                    None
                },
                None => None,
            }
        }
    } else {
        None
    }
}

/// What loading a document yields: its record, or the defaults when it is
/// absent from the schema, corrupt, or empty.
pub open spec fn load_of(s: Seq<char>) -> ConfigView {
    match parse_doc(s) {
        Some(c) => c,
        None => default_config(),
    }
}

/// A string content with every quote and backslash escaped.
pub open spec fn escape_str(p: Seq<char>) -> Seq<char>
    decreases p.len(),
{
    if p.len() == 0 {
        Seq::empty()
    } else {
        (if p[0] == '"' || p[0] == '\\' {
            seq!['\\', p[0]]
        } else {
            seq![p[0]]
        }) + escape_str(p.skip(1))
    }
}

/// The text of a boolean value.
pub open spec fn bool_text(b: bool) -> Seq<char> {
    if b {
        "true"@
    } else {
        "false"@
    }
}

/// The text of the optional path field.
pub open spec fn path_text(p: Option<Seq<char>>) -> Seq<char> {
    match p {
        None => "null"@,
        Some(p) => seq!['"'] + escape_str(p) + seq!['"'],
    }
}

/// The document a record is saved as: all three fields, written wholesale.
pub open spec fn serial_of(c: ConfigView) -> Seq<char> {
    "{\"start_at_login\":"@ + bool_text(c.start_at_login) + ",\"lapsus_rust_path\":"@ + path_text(
        c.lapsus_rust_path,
    ) + ",\"show_dock_icon\":"@ + bool_text(c.show_dock_icon) + "}"@
}

// --- executable parser ---

/// Executable scalar value.
pub enum Scalar {
    Bool(bool),
    Str(String),
    Null,
    Number,
}

/// The model of an executable scalar.
pub open spec fn scalar_view(v: &Scalar) -> JsonScalar {
    match v {
        Scalar::Bool(b) => JsonScalar::Bool(*b),
        Scalar::Str(p) => JsonScalar::Str(p@),
        Scalar::Null => JsonScalar::Null,
        Scalar::Number => JsonScalar::Number,
    }
}

fn json_ws_char(c: char) -> (r: bool)
    ensures
        r == is_json_ws(c),
{
    c == ' ' || c == '\t' || c == '\n' || c == '\r'
}

fn num_char(c: char) -> (r: bool)
    ensures
        r == is_num_char(c),
{
    let u = c as u32;
    (48 <= u && u <= 57) || c == '-' || c == '+' || c == '.' || c == 'e' || c == 'E'
}

fn num_start_char(c: char) -> (r: bool)
    ensures
        r == is_num_start(c),
{
    let u = c as u32;
    (48 <= u && u <= 57) || c == '-'
}

fn ws_end(doc: &str, i: usize) -> (r: usize)
    requires
        i <= doc@.len(),
    ensures
        i <= r <= doc@.len(),
        doc@.skip(r as int) == skip_ws(doc@.skip(i as int)),
    decreases doc@.len() - i,
{
    let n = doc.unicode_len();
    if i < n && json_ws_char(doc.get_char(i)) {
        let r = ws_end(doc, i + 1);
        proof {
            assert(doc@.skip(i as int).skip(1) =~= doc@.skip(i + 1));
        }
        r
    } else {
        i
    }
}

fn num_end(doc: &str, i: usize) -> (r: usize)
    requires
        i <= doc@.len(),
    ensures
        i <= r <= doc@.len(),
        doc@.skip(r as int) == skip_num(doc@.skip(i as int)),
    decreases doc@.len() - i,
{
    let n = doc.unicode_len();
    if i < n && num_char(doc.get_char(i)) {
        let r = num_end(doc, i + 1);
        proof {
            assert(doc@.skip(i as int).skip(1) =~= doc@.skip(i + 1));
        }
        r
    } else {
        i
    }
}

fn lit_at(doc: &str, i: usize, lit: &str) -> (r: bool)
    requires
        i <= doc@.len(),
    ensures
        r == starts_with(doc@.skip(i as int), lit@),
{
    let n = doc.unicode_len();
    let m = lit.unicode_len();
    if m > n - i {
        return false;
    }
    let hit = match_at(doc, lit, i);
    proof {
        assert(doc@.skip(i as int).take(lit@.len() as int) =~= doc@.subrange(
            i as int,
            i + lit@.len(),
        ));
    }
    hit
}

fn string_at(doc: &str, i: usize) -> (r: Option<(String, usize)>)
    requires
        i <= doc@.len(),
    ensures
        match r {
            Some((c, j)) => i <= j <= doc@.len() && parse_str_body(doc@.skip(i as int)) == Some(
                (c@, doc@.skip(j as int)),
            ),
            None => parse_str_body(doc@.skip(i as int)) is None,
        },
    decreases doc@.len() - i,
{
    let n = doc.unicode_len();
    if i >= n {
        return None;
    }
    let c = doc.get_char(i);
    if c == '"' {
        proof {
            assert(doc@.skip(i as int).skip(1) =~= doc@.skip(i + 1));
        }
        return Some((String::new(), i + 1));
    }
    if c == '\\' {
        if i + 1 >= n {
            return None;
        }
        proof {
            assert(doc@.skip(i as int).skip(2) =~= doc@.skip(i + 2));
        }
        match string_at(doc, i + 2) {
            Some((tail, j)) => {
                let mut out = doc.substring_char(i + 1, i + 2).to_owned();
                out.append(tail.as_str());
                proof {
                    assert(out@ =~= seq![doc@.skip(i as int)[1]] + tail@);
                }
                Some((out, j))
            },
            None => None,
        }
    } else {
        proof {
            assert(doc@.skip(i as int).skip(1) =~= doc@.skip(i + 1));
        }
        match string_at(doc, i + 1) {
            Some((tail, j)) => {
                let mut out = doc.substring_char(i, i + 1).to_owned();
                out.append(tail.as_str());
                proof {
                    assert(out@ =~= seq![doc@.skip(i as int)[0]] + tail@);
                }
                Some((out, j))
            },
            None => None,
        }
    }
}

fn scalar_at(doc: &str, i: usize) -> (r: Option<(Scalar, usize)>)
    requires
        i <= doc@.len(),
    ensures
        match r {
            Some((v, j)) => i <= j <= doc@.len() && parse_scalar(doc@.skip(i as int)) == Some(
                (scalar_view(&v), doc@.skip(j as int)),
            ),
            None => parse_scalar(doc@.skip(i as int)) is None,
        },
{
    let n = doc.unicode_len();
    if lit_at(doc, i, "true") {
        proof {
            reveal_strlit("true");
            assert(doc@.skip(i as int).skip("true"@.len() as int) =~= doc@.skip(i + 4));
        }
        return Some((Scalar::Bool(true), i + 4));
    }
    if lit_at(doc, i, "false") {
        proof {
            reveal_strlit("false");
            assert(doc@.skip(i as int).skip("false"@.len() as int) =~= doc@.skip(i + 5));
        }
        return Some((Scalar::Bool(false), i + 5));
    }
    if lit_at(doc, i, "null") {
        proof {
            reveal_strlit("null");
            assert(doc@.skip(i as int).skip("null"@.len() as int) =~= doc@.skip(i + 4));
        }
        return Some((Scalar::Null, i + 4));
    }
    if i >= n {
        return None;
    }
    let c = doc.get_char(i);
    if c == '"' {
        proof {
            assert(doc@.skip(i as int).skip(1) =~= doc@.skip(i + 1));
        }
        match string_at(doc, i + 1) {
            Some((content, j)) => Some((Scalar::Str(content), j)),
            None => None,
        }
    } else if num_start_char(c) {
        proof {
            assert(doc@.skip(i as int).skip(1) =~= doc@.skip(i + 1));
        }
        let j = num_end(doc, i + 1);
        Some((Scalar::Number, j))
    } else {
        None
    }
}

fn skip_value_at(doc: &str, i: usize) -> (r: Option<usize>)
    requires
        i <= doc@.len(),
    ensures
        match r {
            Some(j) => i <= j <= doc@.len() && skip_value(doc@.skip(i as int)) == Some(
                doc@.skip(j as int),
            ),
            None => skip_value(doc@.skip(i as int)) is None,
        },
    decreases doc@.len() - i, 0int,
{
    match scalar_at(doc, i) {
        Some((_, j)) => Some(j),
        None => {
            let n = doc.unicode_len();
            if i < n && doc.get_char(i) == '[' {
                proof {
                    assert(doc@.skip(i as int).skip(1) =~= doc@.skip(i + 1));
                }
                let j1 = ws_end(doc, i + 1);
                if j1 < n && doc.get_char(j1) == ']' {
                    proof {
                        assert(doc@.skip(j1 as int).skip(1) =~= doc@.skip(j1 + 1));
                    }
                    Some(j1 + 1)
                } else {
                    skip_elements_at(doc, j1)
                }
            } else if i < n && doc.get_char(i) == '{' {
                proof {
                    assert(doc@.skip(i as int).skip(1) =~= doc@.skip(i + 1));
                }
                let j1 = ws_end(doc, i + 1);
                if j1 < n && doc.get_char(j1) == '}' {
                    proof {
                        assert(doc@.skip(j1 as int).skip(1) =~= doc@.skip(j1 + 1));
                    }
                    Some(j1 + 1)
                } else {
                    skip_fields_at(doc, j1)
                }
            } else {
                None
            }
        },
    }
}

fn skip_elements_at(doc: &str, i: usize) -> (r: Option<usize>)
    requires
        i <= doc@.len(),
    ensures
        match r {
            Some(j) => i <= j <= doc@.len() && skip_elements(doc@.skip(i as int)) == Some(
                doc@.skip(j as int),
            ),
            None => skip_elements(doc@.skip(i as int)) is None,
        },
    decreases doc@.len() - i, 1int,
{
    let n = doc.unicode_len();
    match skip_value_at(doc, i) {
        None => None,
        Some(j) => {
            let j2 = ws_end(doc, j);
            if j2 < n && doc.get_char(j2) == ',' {
                proof {
                    assert(doc@.skip(j2 as int).skip(1) =~= doc@.skip(j2 + 1));
                }
                let j3 = ws_end(doc, j2 + 1);
                if j3 > i {
                    skip_elements_at(doc, j3)
                } else {
                    None
                }
            } else if j2 < n && doc.get_char(j2) == ']' {
                proof {
                    assert(doc@.skip(j2 as int).skip(1) =~= doc@.skip(j2 + 1));
                }
                Some(j2 + 1)
            } else {
                None
            }
        },
    }
}

fn skip_fields_at(doc: &str, i: usize) -> (r: Option<usize>)
    requires
        i <= doc@.len(),
    ensures
        match r {
            Some(j) => i <= j <= doc@.len() && skip_fields(doc@.skip(i as int)) == Some(
                doc@.skip(j as int),
            ),
            None => skip_fields(doc@.skip(i as int)) is None,
        },
    decreases doc@.len() - i, 1int,
{
    let n = doc.unicode_len();
    if i >= n || doc.get_char(i) != '"' {
        return None;
    }
    proof {
        assert(doc@.skip(i as int).skip(1) =~= doc@.skip(i + 1));
    }
    match string_at(doc, i + 1) {
        None => None,
        Some((_, j1)) => {
            let j2 = ws_end(doc, j1);
            if j2 >= n || doc.get_char(j2) != ':' {
                return None;
            }
            proof {
                assert(doc@.skip(j2 as int).skip(1) =~= doc@.skip(j2 + 1));
            }
            let j3 = ws_end(doc, j2 + 1);
            match skip_value_at(doc, j3) {
                None => None,
                Some(j4) => {
                    let j5 = ws_end(doc, j4);
                    if j5 < n && doc.get_char(j5) == ',' {
                        proof {
                            assert(doc@.skip(j5 as int).skip(1) =~= doc@.skip(j5 + 1));
                        }
                        let j6 = ws_end(doc, j5 + 1);
                        if j6 > i {
                            skip_fields_at(doc, j6)
                        } else {
                            None
                        }
                    } else if j5 < n && doc.get_char(j5) == '}' {
                        proof {
                            assert(doc@.skip(j5 as int).skip(1) =~= doc@.skip(j5 + 1));
                        }
                        Some(j5 + 1)
                    } else {
                        None
                    }
                },
            }
        },
    }
}

fn apply_member_exec(acc: Config, key: &String, v: Scalar) -> (r: Config)
    ensures
        r@ == apply_member(acc@, key@, scalar_view(&v)),
{
    let mut acc = acc;
    if *key == "start_at_login".to_owned() {
        match v {
            Scalar::Bool(b) => {
                acc.start_at_login = b;
                acc
            },
            _ => acc,
        }
    } else if *key == "lapsus_rust_path".to_owned() {
        match v {
            Scalar::Str(p) => {
                acc.lapsus_rust_path = Some(p);
                acc
            },
            Scalar::Null => {
                acc.lapsus_rust_path = None;
                acc
            },
            _ => acc,
        }
    } else if *key == "show_dock_icon".to_owned() {
        match v {
            Scalar::Bool(b) => {
                acc.show_dock_icon = b;
                acc
            },
            _ => acc,
        }
    } else {
        acc
    }
}

fn members_at(doc: &str, i: usize, acc: Config) -> (r: Option<(Config, usize)>)
    requires
        i <= doc@.len(),
    ensures
        match r {
            Some((c, j)) => i <= j <= doc@.len() && parse_members(doc@.skip(i as int), acc@)
                == Some((c@, doc@.skip(j as int))),
            None => parse_members(doc@.skip(i as int), acc@) is None,
        },
    decreases doc@.len() - i,
{
    let n = doc.unicode_len();
    if i >= n || doc.get_char(i) != '"' {
        return None;
    }
    proof {
        assert(doc@.skip(i as int).skip(1) =~= doc@.skip(i + 1));
    }
    match string_at(doc, i + 1) {
        None => None,
        Some((key, j1)) => {
            let j2 = ws_end(doc, j1);
            if j2 >= n || doc.get_char(j2) != ':' {
                return None;
            }
            proof {
                assert(doc@.skip(j2 as int).skip(1) =~= doc@.skip(j2 + 1));
            }
            let j3 = ws_end(doc, j2 + 1);
            let stepped: Option<(Config, usize)> = match scalar_at(doc, j3) {
                Some((v, j4)) => Some((apply_member_exec(acc, &key, v), j4)),
                None => match skip_value_at(doc, j3) {
                    Some(j4) => Some((acc, j4)),
                    None => None,
                },
            };
            match stepped {
                None => None,
                Some((acc2, j4)) => {
                    let j5 = ws_end(doc, j4);
                    if j5 < n && doc.get_char(j5) == ',' {
                        proof {
                            assert(doc@.skip(j5 as int).skip(1) =~= doc@.skip(j5 + 1));
                        }
                        let j6 = ws_end(doc, j5 + 1);
                        if j6 > i {
                            members_at(doc, j6, acc2)
                        } else {
                            None
                        }
                    } else if j5 < n && doc.get_char(j5) == '}' {
                        proof {
                            assert(doc@.skip(j5 as int).skip(1) =~= doc@.skip(j5 + 1));
                        }
                        Some((acc2, j5 + 1))
                    } else {
                        None
                    }
                },
            }
        },
    }
}

/// Read a whole configuration document; a document outside the schema
/// yields nothing.
pub fn parse_config(doc: &str) -> (r: Option<Config>)
    ensures
        match r {
            Some(c) => parse_doc(doc@) == Some(c@),
            None => parse_doc(doc@) is None,
        },
{
    let n = doc.unicode_len();
    proof {
        assert(doc@.skip(0) =~= doc@);
    }
    let i0 = ws_end(doc, 0);
    if i0 >= n || doc.get_char(i0) != '{' {
        return None;
    }
    proof {
        assert(doc@.skip(i0 as int).skip(1) =~= doc@.skip(i0 + 1));
    }
    let i1 = ws_end(doc, i0 + 1);
    if i1 < n && doc.get_char(i1) == '}' {
        proof {
            assert(doc@.skip(i1 as int).skip(1) =~= doc@.skip(i1 + 1));
        }
        let i2 = ws_end(doc, i1 + 1);
        if i2 == n {
            return Some(Config::default());
        } else {
            return None;
        }
    }
    match members_at(doc, i1, Config::default()) {
        None => None,
        Some((c, j)) => {
            let j2 = ws_end(doc, j);
            if j2 == n {
                Some(c)
            } else {
                None
            }
        },
    }
}

/// Load a configuration document: its record, or every field at its
/// default when the document is corrupt or empty.
pub fn load_config(doc: &str) -> (c: Config)
    ensures
        c@ == load_of(doc@),
{
    match parse_config(doc) {
        Some(c) => c,
        None => Config::default(),
    }
}

// --- executable serializer ---

fn escape_from(p: &str, i: usize) -> (r: String)
    requires
        i <= p@.len(),
    ensures
        r@ == escape_str(p@.skip(i as int)),
    decreases p@.len() - i,
{
    let n = p.unicode_len();
    if i >= n {
        let out = String::new();
        proof {
            assert(escape_str(p@.skip(i as int)) =~= Seq::<char>::empty());
        }
        return out;
    }
    let c = p.get_char(i);
    proof {
        assert(p@.skip(i as int).skip(1) =~= p@.skip(i + 1));
    }
    let tail = escape_from(p, i + 1);
    let mut out = if c == '"' || c == '\\' {
        "\\".to_owned()
    } else {
        String::new()
    };
    out.append(p.substring_char(i, i + 1));
    out.append(tail.as_str());
    proof {
        reveal_strlit("\\");
        assert(p@.skip(i as int)[0] == p@[i as int]);
        assert(out@ =~= escape_str(p@.skip(i as int)));
    }
    out
}

/// Serialize a record as its document, written wholesale.
pub fn save_config(c: &Config) -> (r: String)
    ensures
        r@ == serial_of(c@),
{
    let mut out = "{\"start_at_login\":".to_owned();
    out.append(if c.start_at_login {
        "true"
    } else {
        "false"
    });
    out.append(",\"lapsus_rust_path\":");
    match &c.lapsus_rust_path {
        None => {
            out.append("null");
        },
        Some(p) => {
            out.append("\"");
            let esc = escape_from(p.as_str(), 0);
            out.append(esc.as_str());
            out.append("\"");
            proof {
                reveal_strlit("\"");
                assert(p@.skip(0) =~= p@);
            }
        },
    }
    out.append(",\"show_dock_icon\":");
    out.append(if c.show_dock_icon {
        "true"
    } else {
        "false"
    });
    out.append("}");
    proof {
        assert(out@ =~= serial_of(c@));
    }
    out
}

// --- the codec's laws ---

/// The scalar the path field is written as.
pub open spec fn path_scalar(p: Option<Seq<char>>) -> JsonScalar {
    match p {
        None => JsonScalar::Null,
        Some(q) => JsonScalar::Str(q),
    }
}

proof fn lemma_parse_plain_body(k: Seq<char>, rest: Seq<char>)
    requires
        forall|i: int| 0 <= i < k.len() ==> k[i] != '"' && k[i] != '\\',
    ensures
        parse_str_body(k + seq!['"'] + rest) == Some((k, rest)),
    decreases k.len(),
{
    let s = k + seq!['"'] + rest;
    if k.len() == 0 {
        assert(s[0] == '"');
        assert(s.skip(1) =~= rest);
        assert(k =~= Seq::<char>::empty());
    } else {
        assert(s[0] == k[0]);
        lemma_parse_plain_body(k.skip(1), rest);
        assert(s.skip(1) =~= k.skip(1) + seq!['"'] + rest);
        assert(seq![s[0]] + k.skip(1) =~= k);
    }
}

proof fn lemma_parse_escaped_body(p: Seq<char>, rest: Seq<char>)
    ensures
        parse_str_body(escape_str(p) + seq!['"'] + rest) == Some((p, rest)),
    decreases p.len(),
{
    let s = escape_str(p) + seq!['"'] + rest;
    if p.len() == 0 {
        assert(escape_str(p) =~= Seq::<char>::empty());
        assert(s[0] == '"');
        assert(s.skip(1) =~= rest);
        assert(p =~= Seq::<char>::empty());
    } else {
        lemma_parse_escaped_body(p.skip(1), rest);
        if p[0] == '"' || p[0] == '\\' {
            assert(escape_str(p) =~= seq!['\\', p[0]] + escape_str(p.skip(1)));
            assert(s[0] == '\\');
            assert(s[1] == p[0]);
            assert(s.len() >= 2);
            assert(s.skip(2) =~= escape_str(p.skip(1)) + seq!['"'] + rest);
            assert(seq![s[1]] + p.skip(1) =~= p);
        } else {
            assert(escape_str(p) =~= seq![p[0]] + escape_str(p.skip(1)));
            assert(s[0] == p[0]);
            assert(s.skip(1) =~= escape_str(p.skip(1)) + seq!['"'] + rest);
            assert(seq![s[0]] + p.skip(1) =~= p);
        }
    }
}

proof fn lemma_scalar_bool(b: bool, tail: Seq<char>)
    ensures
        parse_scalar(bool_text(b) + tail) == Some((JsonScalar::Bool(b), tail)),
{
    reveal_strlit("true");
    reveal_strlit("false");
    let s = bool_text(b) + tail;
    if b {
        assert(starts_with(s, "true"@)) by {
            assert(s.take("true"@.len() as int) =~= "true"@);
        }
        assert(s.skip("true"@.len() as int) =~= tail);
    } else {
        assert(s[0] == 'f');
        assert(!starts_with(s, "true"@)) by {
            if starts_with(s, "true"@) {
                assert(s.take("true"@.len() as int)[0] == s[0]);
            }
        }
        assert(starts_with(s, "false"@)) by {
            assert(s.take("false"@.len() as int) =~= "false"@);
        }
        assert(s.skip("false"@.len() as int) =~= tail);
    }
}

proof fn lemma_scalar_path(p: Option<Seq<char>>, tail: Seq<char>)
    ensures
        parse_scalar(path_text(p) + tail) == Some((path_scalar(p), tail)),
{
    reveal_strlit("true");
    reveal_strlit("false");
    reveal_strlit("null");
    let s = path_text(p) + tail;
    match p {
        None => {
            assert(s[0] == 'n');
            assert(!starts_with(s, "true"@)) by {
                if starts_with(s, "true"@) {
                    assert(s.take("true"@.len() as int)[0] == s[0]);
                }
            }
            assert(!starts_with(s, "false"@)) by {
                if starts_with(s, "false"@) {
                    assert(s.take("false"@.len() as int)[0] == s[0]);
                }
            }
            assert(starts_with(s, "null"@)) by {
                assert(s.take("null"@.len() as int) =~= "null"@);
            }
            assert(s.skip("null"@.len() as int) =~= tail);
        },
        Some(q) => {
            assert(path_text(p) =~= seq!['"'] + escape_str(q) + seq!['"']);
            assert(s[0] == '"');
            assert(!starts_with(s, "true"@)) by {
                if starts_with(s, "true"@) {
                    assert(s.take("true"@.len() as int)[0] == s[0]);
                }
            }
            assert(!starts_with(s, "false"@)) by {
                if starts_with(s, "false"@) {
                    assert(s.take("false"@.len() as int)[0] == s[0]);
                }
            }
            assert(!starts_with(s, "null"@)) by {
                if starts_with(s, "null"@) {
                    assert(s.take("null"@.len() as int)[0] == s[0]);
                }
            }
            lemma_parse_escaped_body(q, tail);
            assert(s.skip(1) =~= escape_str(q) + seq!['"'] + tail);
        },
    }
}

proof fn lemma_members_step(
    key: Seq<char>,
    vtext: Seq<char>,
    v: JsonScalar,
    tail: Seq<char>,
    acc: ConfigView,
)
    requires
        forall|i: int| 0 <= i < key.len() ==> key[i] != '"' && key[i] != '\\',
        parse_scalar(vtext + tail) == Some((v, tail)),
        vtext.len() > 0,
        !is_json_ws(vtext[0]),
        tail.len() > 0,
        tail[0] == ',' || tail[0] == '}',
    ensures
        tail[0] == ',' && tail.len() >= 2 && !is_json_ws(tail[1]) ==> parse_members(
            seq!['"'] + key + seq!['"', ':'] + vtext + tail,
            acc,
        ) == parse_members(tail.skip(1), apply_member(acc, key, v)),
        tail[0] == '}' ==> parse_members(seq!['"'] + key + seq!['"', ':'] + vtext + tail, acc)
            == Some((apply_member(acc, key, v), tail.skip(1))),
{
    let s = seq!['"'] + key + seq!['"', ':'] + vtext + tail;
    assert(s[0] == '"');
    let rest1 = seq![':'] + vtext + tail;
    assert(s.skip(1) =~= key + seq!['"'] + rest1);
    lemma_parse_plain_body(key, rest1);
    assert(rest1[0] == ':');
    assert(skip_ws(rest1) == rest1);
    assert(rest1.skip(1) =~= vtext + tail);
    assert((vtext + tail)[0] == vtext[0]);
    assert(skip_ws(vtext + tail) == vtext + tail);
    assert(skip_ws(tail) == tail);
    if tail[0] == ',' && tail.len() >= 2 && !is_json_ws(tail[1]) {
        assert(tail.skip(1)[0] == tail[1]);
        assert(skip_ws(tail.skip(1)) == tail.skip(1));
        assert(tail.skip(1).len() < s.len());
    }
}

proof fn lemma_key_facts()
    ensures
        forall|i: int|
            0 <= i < "start_at_login"@.len() ==> ("start_at_login"@[i] != '"'
                && "start_at_login"@[i] != '\\'),
        forall|i: int|
            0 <= i < "lapsus_rust_path"@.len() ==> ("lapsus_rust_path"@[i] != '"'
                && "lapsus_rust_path"@[i] != '\\'),
        forall|i: int|
            0 <= i < "show_dock_icon"@.len() ==> ("show_dock_icon"@[i] != '"'
                && "show_dock_icon"@[i] != '\\'),
        "lapsus_rust_path"@ != "start_at_login"@,
        "show_dock_icon"@ != "start_at_login"@,
        "show_dock_icon"@ != "lapsus_rust_path"@,
{
    reveal_strlit("start_at_login");
    reveal_strlit("lapsus_rust_path");
    reveal_strlit("show_dock_icon");
    assert("lapsus_rust_path"@.len() != "start_at_login"@.len());
    assert("show_dock_icon"@[1] != "start_at_login"@[1]);
    assert("show_dock_icon"@.len() != "lapsus_rust_path"@.len());
}

/// Configuration round-trip: parsing the document a record was saved as
/// reproduces that record exactly, for every record.
pub proof fn lemma_config_round_trip(c: ConfigView)
    ensures
        parse_doc(serial_of(c)) == Some(c),
{
    reveal_strlit("{\"start_at_login\":");
    reveal_strlit(",\"lapsus_rust_path\":");
    reveal_strlit(",\"show_dock_icon\":");
    reveal_strlit("}");
    reveal_strlit("start_at_login");
    reveal_strlit("lapsus_rust_path");
    reveal_strlit("show_dock_icon");
    lemma_key_facts();
    let k1 = "start_at_login"@;
    let k2 = "lapsus_rust_path"@;
    let k3 = "show_dock_icon"@;
    let b1 = bool_text(c.start_at_login);
    let pt = path_text(c.lapsus_rust_path);
    let b2 = bool_text(c.show_dock_icon);
    let s = serial_of(c);
    // Phase texts, innermost last.
    let m3 = seq!['"'] + k3 + seq!['"', ':'] + b2 + seq!['}'];
    let tail2 = seq![','] + m3;
    let m2 = seq!['"'] + k2 + seq!['"', ':'] + pt + tail2;
    let tail1 = seq![','] + m2;
    let m1 = seq!['"'] + k1 + seq!['"', ':'] + b1 + tail1;
    assert(s =~= seq!['{'] + m1);
    // The three scalars.
    lemma_scalar_bool(c.start_at_login, tail1);
    lemma_scalar_path(c.lapsus_rust_path, tail2);
    lemma_scalar_bool(c.show_dock_icon, seq!['}']);
    assert(bool_text(c.start_at_login).len() > 0 && !is_json_ws(bool_text(c.start_at_login)[0]))
        by {
        reveal_strlit("true");
        reveal_strlit("false");
    }
    assert(bool_text(c.show_dock_icon).len() > 0 && !is_json_ws(bool_text(c.show_dock_icon)[0]))
        by {
        reveal_strlit("true");
        reveal_strlit("false");
    }
    assert(pt.len() > 0 && !is_json_ws(pt[0])) by {
        reveal_strlit("null");
    }
    // The member chain, last member first.
    let d = default_config();
    let acc1 = apply_member(d, k1, JsonScalar::Bool(c.start_at_login));
    let acc2 = apply_member(acc1, k2, path_scalar(c.lapsus_rust_path));
    let acc3 = apply_member(acc2, k3, JsonScalar::Bool(c.show_dock_icon));
    lemma_members_step(k1, b1, JsonScalar::Bool(c.start_at_login), tail1, d);
    assert(tail1[1] == '"');
    assert(tail1.skip(1) =~= m2);
    lemma_members_step(k2, pt, path_scalar(c.lapsus_rust_path), tail2, acc1);
    assert(tail2[1] == '"');
    assert(tail2.skip(1) =~= m3);
    lemma_members_step(k3, b2, JsonScalar::Bool(c.show_dock_icon), seq!['}'], acc2);
    assert(parse_members(m1, d) == Some((acc3, seq!['}'].skip(1))));
    assert(seq!['}'].skip(1) =~= Seq::<char>::empty());
    // The record folds to exactly `c`.
    assert(acc3 == c);
    // The document wrapper.
    assert(s[0] == '{');
    assert(skip_ws(s) == s);
    assert(s.skip(1) =~= m1);
    assert(m1[0] == '"');
    assert(skip_ws(m1) == m1);
    assert(skip_ws(Seq::<char>::empty()).len() == 0);
}

/// Malformed-document tolerance: a document the parser rejects loads as
/// the defaults, not as an error.
pub proof fn lemma_malformed_tolerance(s: Seq<char>)
    requires
        parse_doc(s) is None,
    ensures
        load_of(s) == default_config(),
{
}

/// The empty document is rejected by the parser, so it loads as the
/// defaults.
pub proof fn lemma_empty_doc_defaults()
    ensures
        parse_doc(Seq::<char>::empty()) is None,
        load_of(Seq::<char>::empty()) == default_config(),
{
    assert(skip_ws(Seq::<char>::empty()) =~= Seq::<char>::empty());
}

} // verus!
