//! Paths below a module.
//!
//! On the wire a file is named by its path relative to the module root,
//! with `/` between the names and never beginning with `/`. The sending
//! side holds such a path as the list of its names and joins them; the
//! receiving side gets the joined text from a peer it does not trust and
//! inspects it before anything on disk is touched.

use crate::error::ErrorKind;
use crate::wire::{string_from_utf8, texts};
use vstd::prelude::*;
use vstd::string::*;
use vstd::utf8::*;

verus! {

/// The text `.mirra`, the name of the control directory.
pub open spec fn control_name() -> Seq<char> {
    seq!['.', 'm', 'i', 'r', 'r', 'a']
}

/// The text `..`, the name that leads to the parent directory.
pub open spec fn parent_name() -> Seq<char> {
    seq!['.', '.']
}

/// Whether `name` can be one name of a path: it is not empty and holds no
/// `/`.
pub open spec fn plain_name(name: Seq<char>) -> bool {
    name.len() > 0 && forall|i: int| 0 <= i < name.len() ==> name[i] != '/'
}

/// Whether the whole name `x` stands in `s` at index `i`: it begins at
/// the beginning of `s` or behind a `/`, and ends at the end of `s` or
/// before a `/`.
pub open spec fn segment_at(s: Seq<char>, i: int, x: Seq<char>) -> bool {
    &&& 0 <= i
    &&& i + x.len() <= s.len()
    &&& i == 0 || s[i - 1] == '/'
    &&& i + x.len() == s.len() || s[i + x.len()] == '/'
    &&& s.subrange(i, i + x.len()) == x
}

/// Whether one of the names of the path `s` is `x`.
pub open spec fn has_segment(s: Seq<char>, x: Seq<char>) -> bool {
    exists|i: int| segment_at(s, i, x)
}

/// The names of `parts` with a `/` between each two.
pub open spec fn joined_path(parts: Seq<Seq<char>>) -> Seq<char>
    decreases parts.len(),
{
    if parts.len() == 0 {
        seq![]
    } else if parts.len() == 1 {
        parts[0]
    } else {
        joined_path(parts.drop_last()) + seq!['/'] + parts.last()
    }
}

/// Whether every one of `parts` is a plain name.
pub open spec fn all_plain(parts: Seq<Seq<char>>) -> bool {
    forall|i: int| 0 <= i < parts.len() ==> plain_name(#[trigger] parts[i])
}

/// Whether a path that the peer sent stays below the directory it is
/// applied to: it is not empty, does not begin with `/`, none of its names
/// is `..`, and none is the control directory.
pub open spec fn safe_relative(s: Seq<char>) -> bool {
    &&& s.len() > 0
    &&& s[0] != '/'
    &&& !has_segment(s, parent_name())
    &&& !has_segment(s, control_name())
}

/// A name of a joined path is one of the names that were joined.
pub proof fn lemma_joined_segments(parts: Seq<Seq<char>>, x: Seq<char>)
    requires
        all_plain(parts),
        plain_name(x),
        has_segment(joined_path(parts), x),
    ensures
        exists|k: int| 0 <= k < parts.len() && parts[k] == x,
    decreases parts.len(),
{
    let s = joined_path(parts);
    let i = choose|i: int| segment_at(s, i, x);
    let n = x.len() as int;
    if parts.len() == 0 {
    } else if parts.len() == 1 {
        let p = parts[0];
        assert(plain_name(p));
        if i > 0 {
            assert(p[i - 1] != '/');
        }
        if i + n < p.len() {
            assert(p[i + n] != '/');
        }
        assert(p.subrange(0, p.len() as int) =~= p);
    } else {
        let front = parts.drop_last();
        let last = parts.last();
        let head = joined_path(front);
        let cut = head.len() as int;
        assert(plain_name(last));
        assert(s[cut] == '/');
        assert forall|k: int| 0 <= k < front.len() implies plain_name(#[trigger] front[k]) by {
            assert(front[k] == parts[k]);
        }
        if i + n <= cut {
            assert(head.subrange(i, i + n) =~= s.subrange(i, i + n));
            assert(segment_at(head, i, x));
            lemma_joined_segments(front, x);
            let k = choose|k: int| 0 <= k < front.len() && front[k] == x;
            assert(parts[k] == x);
        } else if i > cut {
            if i - 1 > cut {
                assert(s[i - 1] == last[i - 1 - cut - 1]);
            }
            if i + n < s.len() {
                assert(s[i + n] == last[i + n - cut - 1]);
            }
            assert(s.subrange(i, i + n) =~= last);
            assert(parts[parts.len() - 1] == x);
        } else {
            assert(s.subrange(i, i + n)[cut - i] == '/');
            assert(x[cut - i] != '/');
        }
    }
}

/// A path joined from plain names, none of which is `x`, has no name `x`.
pub proof fn lemma_joined_avoids(parts: Seq<Seq<char>>, x: Seq<char>)
    requires
        all_plain(parts),
        plain_name(x),
        forall|k: int| 0 <= k < parts.len() ==> parts[k] != x,
    ensures
        !has_segment(joined_path(parts), x),
{
    if has_segment(joined_path(parts), x) {
        lemma_joined_segments(parts, x);
    }
}

/// A path joined from at least one plain name is not empty and does not
/// begin with `/`.
pub proof fn lemma_joined_relative(parts: Seq<Seq<char>>)
    requires
        all_plain(parts),
        parts.len() > 0,
    ensures
        joined_path(parts).len() > 0,
        joined_path(parts)[0] != '/',
    decreases parts.len(),
{
    assert(plain_name(parts[0]));
    if parts.len() > 1 {
        let front = parts.drop_last();
        assert forall|k: int| 0 <= k < front.len() implies plain_name(#[trigger] front[k]) by {
            assert(front[k] == parts[k]);
        }
        lemma_joined_relative(front);
    }
}

/// A path joined from at least one plain name, none of which is `..` or
/// the control directory, may be applied below a directory.
pub proof fn lemma_joined_safe(parts: Seq<Seq<char>>)
    requires
        all_plain(parts),
        parts.len() > 0,
        forall|k: int| 0 <= k < parts.len() ==> parts[k] != parent_name(),
        forall|k: int| 0 <= k < parts.len() ==> parts[k] != control_name(),
    ensures
        safe_relative(joined_path(parts)),
{
    lemma_joined_relative(parts);
    assert(plain_name(parent_name()));
    assert(plain_name(control_name()));
    lemma_joined_avoids(parts, parent_name());
    lemma_joined_avoids(parts, control_name());
}

/// The text of a path that is given as bytes, as the operating system holds
/// it: the bytes must be valid UTF-8.
pub fn stringify(path: &[u8]) -> (res: Result<String, ErrorKind>)
    ensures
        res is Ok <==> valid_utf8(path@),
        res matches Ok(s) ==> s@ == decode_utf8(path@),
        res matches Err(e) ==> e == ErrorKind::Other,
{
    match string_from_utf8(vstd::slice::slice_to_vec(path)) {
        Some(s) => Ok(s),
        None => Err(ErrorKind::Other),
    }
}

/// The characters of `s`.
pub fn chars_of(s: &str) -> (v: Vec<char>)
    ensures
        v@ == s@,
{
    let mut v: Vec<char> = Vec::new();
    for c in it: s.chars()
        invariant
            v@ == it.seq().take(it.index() as int),
            it.seq() == s@,
    {
        v.push(c);
    }
    v
}

/// Whether the name `x` stands in `s` at index `i`.
fn segment_here(s: &Vec<char>, i: usize, x: &Vec<char>) -> (res: bool)
    requires
        i + x@.len() <= s@.len(),
    ensures
        res == segment_at(s@, i as int, x@),
{
    let n = x.len();
    let len = s.len();
    if i > 0 && s[i - 1] != '/' {
        return false;
    }
    if i + n < len && s[i + n] != '/' {
        return false;
    }
    let mut k: usize = 0;
    while k < n
        invariant
            k <= n,
            n == x@.len(),
            len == s@.len(),
            i + n <= s@.len(),
            forall|j: int| 0 <= j < k ==> s@[i + j] == x@[j],
        decreases n - k,
    {
        if s[i + k] != x[k] {
            assert(s@.subrange(i as int, i + n)[k as int] != x@[k as int]);
            return false;
        }
        k += 1;
    }
    assert(s@.subrange(i as int, i + n) =~= x@);
    true
}

/// Whether one of the names of the path `s` is `x`.
pub fn contains_segment(s: &Vec<char>, x: &Vec<char>) -> (res: bool)
    ensures
        res == has_segment(s@, x@),
{
    if x.len() > s.len() {
        return false;
    }
    let last = s.len() - x.len();
    let mut i: usize = 0;
    while i < last
        invariant
            i <= last,
            last == s@.len() - x@.len(),
            forall|k: int| 0 <= k < i ==> !segment_at(s@, k, x@),
        decreases last - i,
    {
        if segment_here(s, i, x) {
            return true;
        }
        i += 1;
    }
    segment_here(s, last, x)
}

/// The characters of `.mirra`.
pub fn control_chars() -> (v: Vec<char>)
    ensures
        v@ == control_name(),
{
    let mut v: Vec<char> = Vec::new();
    v.push('.');
    v.push('m');
    v.push('i');
    v.push('r');
    v.push('r');
    v.push('a');
    assert(v@ =~= control_name());
    v
}

/// The characters of `..`.
pub fn parent_chars() -> (v: Vec<char>)
    ensures
        v@ == parent_name(),
{
    let mut v: Vec<char> = Vec::new();
    v.push('.');
    v.push('.');
    assert(v@ =~= parent_name());
    v
}

/// Whether `a` and `b` hold the same characters.
fn same_chars(a: &Vec<char>, b: &Vec<char>) -> (res: bool)
    ensures
        res == (a@ == b@),
{
    if a.len() != b.len() {
        return false;
    }
    let mut k: usize = 0;
    while k < a.len()
        invariant
            k <= a.len(),
            a@.len() == b@.len(),
            forall|j: int| 0 <= j < k ==> a@[j] == b@[j],
        decreases a.len() - k,
    {
        if a[k] != b[k] {
            return false;
        }
        k += 1;
    }
    assert(a@ =~= b@);
    true
}

/// Whether `a` and `b` are the same text.
pub fn same_text(a: &str, b: &str) -> (res: bool)
    ensures
        res == (a@ == b@),
{
    let x = a.as_bytes();
    let y = b.as_bytes();
    proof {
        encode_utf8_decode_utf8(a@);
        encode_utf8_decode_utf8(b@);
    }
    if x.len() != y.len() {
        return false;
    }
    let mut k: usize = 0;
    while k < x.len()
        invariant
            k <= x@.len(),
            x@.len() == y@.len(),
            x@ == encode_utf8(a@),
            y@ == encode_utf8(b@),
            forall|j: int| 0 <= j < k ==> x@[j] == y@[j],
        decreases x.len() - k,
    {
        if x[k] != y[k] {
            return false;
        }
        k += 1;
    }
    assert(x@ =~= y@);
    true
}

/// Whether `name` is the name of the control directory.
pub fn is_control_name(name: &str) -> (res: bool)
    ensures
        res == (name@ == control_name()),
{
    same_chars(&chars_of(name), &control_chars())
}

/// Whether `name` is the name that leads to the parent directory.
pub fn is_parent_name(name: &str) -> (res: bool)
    ensures
        res == (name@ == parent_name()),
{
    same_chars(&chars_of(name), &parent_chars())
}

/// Whether `name` can be one name of a path.
pub fn is_plain_name(name: &str) -> (res: bool)
    ensures
        res == plain_name(name@),
{
    let v = chars_of(name);
    if v.len() == 0 {
        return false;
    }
    let mut k: usize = 0;
    while k < v.len()
        invariant
            k <= v.len(),
            v@ == name@,
            forall|j: int| 0 <= j < k ==> v@[j] != '/',
        decreases v.len() - k,
    {
        if v[k] == '/' {
            assert(name@[k as int] == '/');
            return false;
        }
        k += 1;
    }
    true
}

/// Whether a path that the peer sent may be applied below the local
/// directory of the module.
pub fn is_safe_relative(path: &str) -> (res: bool)
    ensures
        res == safe_relative(path@),
{
    let v = chars_of(path);
    if v.len() == 0 {
        return false;
    }
    if v[0] == '/' {
        return false;
    }
    if contains_segment(&v, &parent_chars()) {
        return false;
    }
    !contains_segment(&v, &control_chars())
}

/// The path that is sent for a file whose names below the module root are
/// `parts`.
pub fn join_parts(parts: &Vec<String>) -> (res: String)
    ensures
        res@ == joined_path(texts(parts@)),
{
    let ghost all = texts(parts@);
    let mut res = String::new();
    let mut i: usize = 0;
    assert(all.take(0) =~= Seq::<Seq<char>>::empty());
    while i < parts.len()
        invariant
            i <= parts.len(),
            all == texts(parts@),
            res@ == joined_path(all.take(i as int)),
        decreases parts.len() - i,
    {
        proof {
            reveal_strlit("/");
            assert(all.take(i + 1).drop_last() =~= all.take(i as int));
            assert("/"@ =~= seq!['/']);
        }
        if i > 0 {
            res.append("/");
        }
        res.append(parts[i].as_str());
        proof {
            if i == 0 {
                assert(res@ =~= all[0]);
            }
        }
        i += 1;
    }
    assert(all.take(i as int) =~= all);
    res
}

} // verus!
