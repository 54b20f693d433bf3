//! Local file names for names that a server supplies.
use vstd::prelude::*;
use crate::text::{chars_of, push_char};

verus! {

broadcast use vstd::string::group_string_axioms;

/// Characters that may not stand in a local file name: path separators and
/// control characters.
pub open spec fn is_unsafe_name_char(c: char) -> bool {
    c == '/' || c == '\\' || c < ' ' || c == '\u{7f}'
}

/// Each unsafe character replaced by `_`.
pub open spec fn replace_unsafe(s: Seq<char>) -> Seq<char> {
    s.map_values(|c: char| if is_unsafe_name_char(c) { '_' } else { c })
}

/// A name that can stand as the last component of a path: not empty, not
/// `.` and not `..`.
pub open spec fn is_usable_name(s: Seq<char>) -> bool {
    s.len() > 0 && s != seq!['.'] && s != seq!['.', '.']
}

/// The local name for a server-supplied name: the name with each unsafe
/// character replaced by `_`; when that is empty, `.` or `..`, the file id
/// treated the same way; when that is not usable either, `download`.
pub open spec fn sanitized_name(raw: Seq<char>, file_id: Seq<char>) -> Seq<char> {
    if is_usable_name(replace_unsafe(raw)) {
        replace_unsafe(raw)
    } else if is_usable_name(replace_unsafe(file_id)) {
        replace_unsafe(file_id)
    } else {
        seq!['d', 'o', 'w', 'n', 'l', 'o', 'a', 'd']
    }
}

/// A name that is safe as a single path component.
pub open spec fn is_safe_name(s: Seq<char>) -> bool {
    is_usable_name(s) && forall|i: int| 0 <= i < s.len() ==> !is_unsafe_name_char(#[trigger] s[i])
}

fn replace_unsafe_exec(s: &str) -> (r: String)
    ensures
        r@ == replace_unsafe(s@),
{
    let v = chars_of(s);
    let mut r = String::new();
    let mut i: usize = 0;
    while i < v.len()
        invariant
            i <= v@.len(),
            r@ == replace_unsafe(v@.take(i as int)),
        decreases v.len() - i,
    {
        let c = v[i];
        let d = if c == '/' || c == '\\' || c < ' ' || c == '\u{7f}' {
            '_'
        } else {
            c
        };
        push_char(&mut r, d);
        assert(replace_unsafe(v@.take(i + 1)) =~= replace_unsafe(v@.take(i as int)).push(d));
        i = i + 1;
    }
    assert(v@.take(i as int) =~= v@);
    r
}

/// Whether `s` is usable as a file name (see `is_usable_name`).
pub fn usable_name(s: &String) -> (b: bool)
    ensures
        b == is_usable_name(s@),
{
    let v = chars_of(s.as_str());
    if v.len() == 0 {
        return false;
    }
    if v.len() == 1 && v[0] == '.' {
        assert(v@ =~= seq!['.']);
        return false;
    }
    if v.len() == 2 && v[0] == '.' && v[1] == '.' {
        assert(v@ =~= seq!['.', '.']);
        return false;
    }
    assert(v@.len() == 1 ==> v@[0] != '.');
    true
}

/// The name a downloaded file is saved under (see `sanitized_name`).
pub fn sanitize_server_filename(raw_name: &str, file_id: &str) -> (name: String)
    ensures
        name@ == sanitized_name(raw_name@, file_id@),
        is_safe_name(name@),
{
    let first = replace_unsafe_exec(raw_name);
    if usable_name(&first) {
        return first;
    }
    let second = replace_unsafe_exec(file_id);
    if usable_name(&second) {
        return second;
    }
    proof {
        reveal_strlit("download");
    }
    let r = String::from_str("download");
    assert(r@ =~= seq!['d', 'o', 'w', 'n', 'l', 'o', 'a', 'd']);
    r
}

/// A safe name is its own sanitized form: sanitizing twice changes nothing,
/// and a name that needs no change keeps every character (UTF-8 included).
pub proof fn sanitize_keeps_safe_names(raw: Seq<char>, file_id: Seq<char>)
    ensures
        is_safe_name(sanitized_name(raw, file_id)),
        sanitized_name(sanitized_name(raw, file_id), file_id) == sanitized_name(raw, file_id),
        is_safe_name(raw) ==> sanitized_name(raw, file_id) == raw,
{
    lemma_replace_safe(raw);
    lemma_replace_safe(file_id);
    let n = sanitized_name(raw, file_id);
    assert(seq!['d', 'o', 'w', 'n', 'l', 'o', 'a', 'd'][0] == 'd');
    lemma_replace_safe(n);
}

proof fn lemma_replace_safe(s: Seq<char>)
    ensures
        forall|i: int| 0 <= i < replace_unsafe(s).len() ==> !is_unsafe_name_char(#[trigger] replace_unsafe(s)[i]),
        (forall|i: int| 0 <= i < s.len() ==> !is_unsafe_name_char(#[trigger] s[i])) ==> replace_unsafe(s) == s,
{
    if forall|i: int| 0 <= i < s.len() ==> !is_unsafe_name_char(#[trigger] s[i]) {
        assert(replace_unsafe(s) =~= s);
    }
}

} // verus!
