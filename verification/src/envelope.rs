//! The envelopes every command prints on stdout: on success
//! `{"ok":true,...}` with the command's fields, on failure
//! `{"error":{...},"ok":false}`; keys in the order serde_json's map keeps
//! them (sorted).

use vstd::prelude::*;
use crate::text::{owned, str_eq, str_lt, join, join_strings, string_views, seq_lt};

verus! {

broadcast use vstd::string::group_string_axioms;

/// A lowercase hexadecimal digit.
pub open spec fn hex_digit(d: int) -> char {
    if d < 10 { (('0' as int) + d) as char } else { (('a' as int) + d - 10) as char }
}

/// How serde_json writes one character inside a JSON string: `"` and `\`
/// behind a backslash, the control characters that have one by their short
/// escape (`\b`, `\t`, `\n`, `\f`, `\r`), the other control characters
/// below U+0020 as `\u00` and two lowercase hex digits, anything else as
/// it is.
pub open spec fn json_escaped(c: char) -> Seq<char> {
    if c == '"' {
        seq!['\\', '"']
    } else if c == '\\' {
        seq!['\\', '\\']
    } else if c == '\x08' {
        seq!['\\', 'b']
    } else if c == '\t' {
        seq!['\\', 't']
    } else if c == '\n' {
        seq!['\\', 'n']
    } else if c == '\x0c' {
        seq!['\\', 'f']
    } else if c == '\r' {
        seq!['\\', 'r']
    } else if (c as int) < 0x20 {
        seq!['\\', 'u', '0', '0', hex_digit((c as int) / 16), hex_digit((c as int) % 16)]
    } else {
        seq![c]
    }
}

/// The characters of `s`, each as serde_json writes it inside a string.
pub open spec fn json_escaped_text(s: Seq<char>) -> Seq<char>
    decreases s.len(),
{
    if s.len() == 0 {
        Seq::empty()
    } else {
        json_escaped_text(s.drop_last()) + json_escaped(s.last())
    }
}

/// What `serde_json::to_string` gives for a string: the text escaped, in
/// double quotes.
pub open spec fn json_quoted(s: Seq<char>) -> Seq<char> {
    seq!['"'] + json_escaped_text(s) + seq!['"']
}

/// `serde_json::to_string` of a string (which cannot fail for one): the
/// string in double quotes, each character escaped as `json_escaped` says
/// (serde_json's escape table, `format_escaped_str_contents`).
#[verifier::external_body]
fn json_quote(s: &str) -> (r: String)
    ensures
        r@ == json_quoted(s@),
{
    serde_json::to_string(s).unwrap_or_default()
}

/// The failure envelope: the message, and the code and hint where given.
pub open spec fn error_envelope(code: Option<Seq<char>>, message: Seq<char>, hint: Option<Seq<char>>) -> Seq<char> {
    "{\"error\":{"@
        + (match code {
        Some(c) => "\"code\":"@ + json_quoted(c) + ","@,
        None => Seq::empty(),
    })
        + (match hint {
        Some(h) => "\"hint\":"@ + json_quoted(h) + ","@,
        None => Seq::empty(),
    })
        + "\"message\":"@ + json_quoted(message) + "},\"ok\":false}"@
}

pub open spec fn opt_str(o: Option<&str>) -> Option<Seq<char>> {
    match o {
        Some(s) => Some(s@),
        None => None,
    }
}

fn envelope(code: Option<&str>, message: &str, hint: Option<&str>) -> (r: String)
    ensures
        r@ == error_envelope(opt_str(code), message@, opt_str(hint)),
{
    let mut r = owned("{\"error\":{");
    let ghost a = r@;
    match code {
        Some(c) => {
            r.append("\"code\":");
            r.append(json_quote(c).as_str());
            r.append(",");
        },
        None => {},
    }
    let ghost b = r@;
    match hint {
        Some(h) => {
            r.append("\"hint\":");
            r.append(json_quote(h).as_str());
            r.append(",");
        },
        None => {},
    }
    let ghost c = r@;
    r.append("\"message\":");
    r.append(json_quote(message).as_str());
    r.append("},\"ok\":false}");
    proof {
        let cs: Seq<char> = match opt_str(code) {
            Some(x) => "\"code\":"@ + json_quoted(x) + ","@,
            None => Seq::empty(),
        };
        let hs: Seq<char> = match opt_str(hint) {
            Some(x) => "\"hint\":"@ + json_quoted(x) + ","@,
            None => Seq::empty(),
        };
        assert(b =~= a + cs);
        assert(c =~= a + cs + hs);
        assert(r@ =~= error_envelope(opt_str(code), message@, opt_str(hint)));
    }
    r
}

/// The line a command prints when it fails with `message` (and `hint`);
/// the caller prints it and exits with status 1.
pub fn print_err(message: &str, hint: Option<&str>) -> (r: String)
    ensures
        r@ == error_envelope(None, message@, opt_str(hint)),
{
    envelope(None, message, hint)
}

/// The line a command prints when it fails with a stable `code`; the caller
/// prints it and exits with status 1.
pub fn print_err_coded(code: &str, message: &str, hint: Option<&str>) -> (r: String)
    ensures
        r@ == error_envelope(Some(code@), message@, opt_str(hint)),
{
    envelope(Some(code), message, hint)
}

// ─── success ────────────────────────────────────────────────────────────────

/// A JSON object given as its entries: each key with the JSON text of its
/// value.
pub open spec fn entry_views(v: Seq<(String, String)>) -> Seq<(Seq<char>, Seq<char>)> {
    v.map_values(|e: (String, String)| (e.0@, e.1@))
}

/// The keys strictly ascend, as in a serde_json map.
pub open spec fn keys_ascending(es: Seq<(Seq<char>, Seq<char>)>) -> bool {
    forall|i: int, j: int| 0 <= i < j < es.len() ==> seq_lt(#[trigger] es[i].0, #[trigger] es[j].0)
}

/// The keys the envelope sets itself: `ok`, and `warnings` where a list of
/// warnings is given (`w`).
pub open spec fn is_reserved(k: Seq<char>, w: bool) -> bool {
    k == "ok"@ || (w && k == "warnings"@)
}

/// The entries whose key the envelope does not set itself.
pub open spec fn unreserved(es: Seq<(Seq<char>, Seq<char>)>, w: bool) -> Seq<(Seq<char>, Seq<char>)>
    decreases es.len(),
{
    if es.len() == 0 {
        es
    } else {
        let r = unreserved(es.drop_last(), w);
        if is_reserved(es.last().0, w) { r } else { r.push(es.last()) }
    }
}

/// The first position from `i` on whose key comes after `k`.
pub open spec fn first_after(es: Seq<(Seq<char>, Seq<char>)>, k: Seq<char>, i: int) -> int
    decreases es.len() - i,
{
    if i < 0 || i >= es.len() {
        es.len() as int
    } else if seq_lt(k, es[i].0) {
        i
    } else {
        first_after(es, k, i + 1)
    }
}

/// `es` with the entry `(k, v)` put before the first key after `k`.
pub open spec fn place(es: Seq<(Seq<char>, Seq<char>)>, k: Seq<char>, v: Seq<char>) -> Seq<(Seq<char>, Seq<char>)> {
    let p = first_after(es, k, 0);
    es.take(p) + seq![(k, v)] + es.skip(p)
}

/// The JSON text of an array of strings.
pub open spec fn json_array(items: Seq<Seq<char>>) -> Seq<char> {
    "["@ + join(items.map_values(|w: Seq<char>| json_quoted(w)), ","@) + "]"@
}

pub open spec fn json_member(e: (Seq<char>, Seq<char>)) -> Seq<char> {
    json_quoted(e.0) + ":"@ + e.1
}

/// The JSON text of an object with the entries `es`, in their order.
pub open spec fn json_object(es: Seq<(Seq<char>, Seq<char>)>) -> Seq<char> {
    "{"@ + join(es.map_values(|e: (Seq<char>, Seq<char>)| json_member(e)), ","@) + "}"@
}

/// The entries of a success envelope: every field but `ok` (and but
/// `warnings` where warnings are given), with `ok` set to `true` and, where
/// given, the warnings, each put in its place by key.
pub open spec fn ok_entries(fields: Seq<(Seq<char>, Seq<char>)>, warnings: Option<Seq<Seq<char>>>) -> Seq<(Seq<char>, Seq<char>)> {
    let base = place(unreserved(fields, warnings is Some), "ok"@, "true"@);
    match warnings {
        Some(w) => place(base, "warnings"@, json_array(w)),
        None => base,
    }
}

fn unreserved_exec(fields: &Vec<(String, String)>, w: bool) -> (r: Vec<(String, String)>)
    ensures
        entry_views(r@) == unreserved(entry_views(fields@), w),
{
    let ghost fv = entry_views(fields@);
    let mut r: Vec<(String, String)> = Vec::new();
    let mut i: usize = 0;
    while i < fields.len()
        invariant
            fv == entry_views(fields@),
            i <= fields@.len(),
            entry_views(r@) == unreserved(fv.take(i as int), w),
        decreases fields.len() - i,
    {
        assert(fv.take(i + 1).drop_last() =~= fv.take(i as int));
        assert(fv.take(i + 1).last() == fv[i as int]);
        let k = fields[i].0.as_str();
        if !str_eq(k, "ok") && !(w && str_eq(k, "warnings")) {
            let ghost before = entry_views(r@);
            r.push((fields[i].0.clone(), fields[i].1.clone()));
            assert(entry_views(r@) =~= before.push(fv[i as int]));
        }
        i += 1;
    }
    assert(fv.take(fields@.len() as int) =~= fv);
    r
}

fn place_exec(v: &mut Vec<(String, String)>, k: &str, val: String)
    ensures
        entry_views(final(v)@) == place(entry_views(old(v)@), k@, val@),
{
    let ghost ev = entry_views(v@);
    let mut i: usize = 0;
    while i < v.len() && !str_lt(k, v[i].0.as_str())
        invariant
            ev == entry_views(v@),
            i <= v@.len(),
            first_after(ev, k@, 0) == first_after(ev, k@, i as int),
        decreases v.len() - i,
    {
        i += 1;
    }
    assert(first_after(ev, k@, i as int) == i);
    v.insert(i, (owned(k), val));
    assert(entry_views(v@) =~= ev.take(i as int) + seq![(k@, val@)] + ev.skip(i as int));
}

fn json_array_exec(items: &Vec<String>) -> (r: String)
    ensures
        r@ == json_array(string_views(items@)),
{
    let ghost iv = string_views(items@);
    let ghost target = iv.map_values(|w: Seq<char>| json_quoted(w));
    let mut parts: Vec<String> = Vec::new();
    let mut i: usize = 0;
    while i < items.len()
        invariant
            iv == string_views(items@),
            target == iv.map_values(|w: Seq<char>| json_quoted(w)),
            i <= items@.len(),
            string_views(parts@) == target.take(i as int),
        decreases items.len() - i,
    {
        let ghost before = string_views(parts@);
        let q = json_quote(items[i].as_str());
        assert(iv[i as int] == items@[i as int]@);
        assert(q@ == target[i as int]);
        parts.push(q);
        assert(string_views(parts@) =~= before.push(target[i as int]));
        assert(target.take(i + 1) =~= target.take(i as int).push(target[i as int]));
        i += 1;
    }
    assert(target.take(items@.len() as int) =~= target);
    let mut r = owned("[");
    r.append(join_strings(&parts, ",").as_str());
    r.append("]");
    r
}

fn json_object_exec(entries: &Vec<(String, String)>) -> (r: String)
    ensures
        r@ == json_object(entry_views(entries@)),
{
    let ghost ev = entry_views(entries@);
    let ghost target = ev.map_values(|e: (Seq<char>, Seq<char>)| json_member(e));
    let mut parts: Vec<String> = Vec::new();
    let mut i: usize = 0;
    while i < entries.len()
        invariant
            ev == entry_views(entries@),
            target == ev.map_values(|e: (Seq<char>, Seq<char>)| json_member(e)),
            i <= entries@.len(),
            string_views(parts@) == target.take(i as int),
        decreases entries.len() - i,
    {
        let mut m = json_quote(entries[i].0.as_str());
        m.append(":");
        m.append(entries[i].1.as_str());
        assert(ev[i as int] == (entries@[i as int].0@, entries@[i as int].1@));
        assert(m@ == json_member(ev[i as int]));
        assert(m@ == target[i as int]);
        let ghost before = string_views(parts@);
        parts.push(m);
        assert(string_views(parts@) =~= before.push(target[i as int]));
        assert(target.take(i + 1) =~= target.take(i as int).push(target[i as int]));
        i += 1;
    }
    assert(target.take(entries@.len() as int) =~= target);
    let mut r = owned("{");
    r.append(join_strings(&parts, ",").as_str());
    r.append("}");
    r
}

/// The entries of a success envelope built from the entries `fields` of
/// the command's output object (see `ok_entries`).
pub fn merge_ok(fields: &Vec<(String, String)>, warnings: Option<&Vec<String>>) -> (r: Vec<(String, String)>)
    ensures
        entry_views(r@) == ok_entries(entry_views(fields@), match warnings {
            Some(w) => Some(string_views(w@)),
            None => None,
        }),
{
    let mut out = unreserved_exec(fields, warnings.is_some());
    place_exec(&mut out, "ok", owned("true"));
    match warnings {
        Some(w) => place_exec(&mut out, "warnings", json_array_exec(w)),
        None => {},
    }
    out
}

/// The success line of a command whose output object has the entries
/// `fields`.
pub fn format_ok(fields: &Vec<(String, String)>) -> (r: String)
    ensures
        r@ == json_object(ok_entries(entry_views(fields@), None)),
{
    json_object_exec(&merge_ok(fields, None))
}

/// The success line of a command that partly succeeded: its output object's
/// entries `fields`, and the `warnings`.
pub fn format_ok_with_warnings(fields: &Vec<(String, String)>, warnings: &Vec<String>) -> (r: String)
    ensures
        r@ == json_object(ok_entries(entry_views(fields@), Some(string_views(warnings@)))),
{
    json_object_exec(&merge_ok(fields, Some(warnings)))
}

} // verus!
