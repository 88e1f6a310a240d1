//! The pages on which a peer shows what it shares.
//!
//! A page is made from a layout: a text with placeholders, and with one
//! section between `$(` and `)*` that is repeated for each entry of a
//! listing. Texts are worked on as sequences of characters.

use crate::error::ErrorKind;
use crate::path::chars_of;
use vstd::prelude::*;
use vstd::string::*;

verus! {

/// Whether `pat` stands in `text` at index `i`.
pub open spec fn occurs_at(text: Seq<char>, i: int, pat: Seq<char>) -> bool {
    0 <= i && i + pat.len() <= text.len() && text.subrange(i, i + pat.len()) == pat
}

/// The first index from `from` on at which `pat` stands in `text`, if it
/// stands there at all.
pub open spec fn match_from(text: Seq<char>, pat: Seq<char>, from: int) -> Option<int>
    decreases text.len() - from + 1,
{
    if from < 0 || from + pat.len() > text.len() {
        None
    } else if occurs_at(text, from, pat) {
        Some(from)
    } else {
        match_from(text, pat, from + 1)
    }
}

/// The first index at which `pat` stands in `text`, if it stands there
/// at all.
pub open spec fn first_match(text: Seq<char>, pat: Seq<char>) -> Option<int> {
    match_from(text, pat, 0)
}

/// What is found is the first place at which `pat` stands, and where
/// nothing is found `pat` stands nowhere.
pub proof fn lemma_match_from(text: Seq<char>, pat: Seq<char>, from: int)
    requires
        0 <= from,
    ensures
        match match_from(text, pat, from) {
            Some(i) => from <= i && occurs_at(text, i, pat) && forall|j: int|
                from <= j < i ==> !occurs_at(text, j, pat),
            None => forall|j: int| from <= j ==> !occurs_at(text, j, pat),
        },
    decreases text.len() - from + 1,
{
    if from + pat.len() <= text.len() && !occurs_at(text, from, pat) {
        lemma_match_from(text, pat, from + 1);
    }
}

/// `text` with `with` in place of `pat` wherever `pat` stands in it, from
/// left to right, each place taken once.
pub open spec fn replaced(text: Seq<char>, pat: Seq<char>, with: Seq<char>) -> Seq<char>
    recommends
        pat.len() > 0,
    decreases text.len(),
{
    if pat.len() == 0 || text.len() < pat.len() {
        text
    } else if occurs_at(text, 0, pat) {
        with + replaced(text.skip(pat.len() as int), pat, with)
    } else {
        seq![text[0]] + replaced(text.skip(1), pat, with)
    }
}

/// Whether `pat` stands in `text` at index `i`.
fn matches_at(text: &Vec<char>, i: usize, pat: &Vec<char>) -> (res: bool)
    requires
        i + pat@.len() <= text@.len(),
    ensures
        res == occurs_at(text@, i as int, pat@),
{
    let n = pat.len();
    let len = text.len();
    let mut k: usize = 0;
    while k < n
        invariant
            k <= n,
            n == pat@.len(),
            len == text@.len(),
            i + n <= len,
            forall|j: int| 0 <= j < k ==> text@[i + j] == pat@[j],
        decreases n - k,
    {
        if text[i + k] != pat[k] {
            assert(text@.subrange(i as int, i + n)[k as int] != pat@[k as int]);
            return false;
        }
        k += 1;
    }
    assert(text@.subrange(i as int, i + n) =~= pat@);
    true
}

/// The first index at which `pat` stands in `text`.
pub fn find_first(text: &Vec<char>, pat: &Vec<char>) -> (res: Option<usize>)
    ensures
        match res {
            Some(i) => first_match(text@, pat@) == Some(i as int) && i + pat@.len()
                <= text@.len(),
            None => first_match(text@, pat@) is None,
        },
{
    if pat.len() > text.len() {
        return None;
    }
    let last = text.len() - pat.len();
    let mut i: usize = 0;
    while i < last
        invariant
            i <= last,
            last == text@.len() - pat@.len(),
            match_from(text@, pat@, 0) == match_from(text@, pat@, i as int),
        decreases last - i,
    {
        if matches_at(text, i, pat) {
            return Some(i);
        }
        i += 1;
    }
    if matches_at(text, last, pat) {
        Some(last)
    } else {
        assert(match_from(text@, pat@, last + 1) is None);
        None
    }
}

/// Appends the characters of `more` to `out`.
fn append_chars(out: &mut Vec<char>, more: &Vec<char>)
    ensures
        final(out)@ == old(out)@ + more@,
{
    let mut k: usize = 0;
    while k < more.len()
        invariant
            k <= more.len(),
            out@ == old(out)@ + more@.take(k as int),
        decreases more.len() - k,
    {
        out.push(more[k]);
        assert(more@.take(k + 1) =~= more@.take(k as int).push(more@[k as int]));
        k += 1;
    }
    assert(more@.take(k as int) =~= more@);
}

/// `text` with `with` in place of `pat` wherever `pat` stands in it.
pub fn replace_all(text: &Vec<char>, pat: &Vec<char>, with: &Vec<char>) -> (res: Vec<char>)
    requires
        pat@.len() > 0,
    ensures
        res@ == replaced(text@, pat@, with@),
{
    let mut out: Vec<char> = Vec::new();
    let n = pat.len();
    let len = text.len();
    let mut i: usize = 0;
    assert(text@.skip(0) =~= text@);
    while i < len && len - i >= n
        invariant
            i <= len,
            len == text@.len(),
            n == pat@.len(),
            n > 0,
            out@ + replaced(text@.skip(i as int), pat@, with@) == replaced(text@, pat@, with@),
        decreases len - i,
    {
        let ghost rest = text@.skip(i as int);
        let ghost before = out@;
        if matches_at(text, i, pat) {
            assert(rest.subrange(0, n as int) =~= text@.subrange(i as int, i + n));
            append_chars(&mut out, with);
            assert(rest.skip(n as int) =~= text@.skip(i + n));
            assert(out@ + replaced(text@.skip(i + n), pat@, with@) =~= before + (with@ + replaced(
                rest.skip(n as int),
                pat@,
                with@,
            )));
            i += n;
        } else {
            assert(rest.subrange(0, n as int) =~= text@.subrange(i as int, i + n));
            out.push(text[i]);
            assert(rest.skip(1) =~= text@.skip(i + 1));
            assert(out@ + replaced(text@.skip(i + 1), pat@, with@) =~= before + (seq![rest[0]]
                + replaced(rest.skip(1), pat@, with@)));
            i += 1;
        }
    }
    let ghost before = out@;
    let ghost tail = text@.skip(i as int);
    while i < len
        invariant
            i <= len,
            len == text@.len(),
            out@ + text@.skip(i as int) == before + tail,
        decreases len - i,
    {
        out.push(text[i]);
        assert(out@ + text@.skip(i + 1) =~= out@.drop_last() + text@.skip(i as int));
        i += 1;
    }
    assert(text@.skip(i as int) =~= Seq::<char>::empty());
    assert(out@ =~= before + tail);
    out
}

/// `String::push` of the standard library, which puts one character at
/// the end of a string.
#[verifier::external_body]
fn push_char(s: &mut String, c: char)
    ensures
        final(s)@ == old(s)@.push(c),
{
    s.push(c);
}

/// The string of the characters `chars`.
pub fn string_of(chars: &Vec<char>) -> (res: String)
    ensures
        res@ == chars@,
{
    let mut res = String::new();
    let mut k: usize = 0;
    while k < chars.len()
        invariant
            k <= chars.len(),
            res@ == chars@.take(k as int),
        decreases chars.len() - k,
    {
        push_char(&mut res, chars[k]);
        assert(chars@.take(k + 1) =~= chars@.take(k as int).push(chars@[k as int]));
        k += 1;
    }
    assert(chars@.take(k as int) =~= chars@);
    res
}

/// What a page says about the peer `name`: that it shares the module
/// `module`, or, for no module, that it shares its modules.
pub open spec fn description(name: Seq<char>, module: Option<Seq<char>>) -> Seq<char> {
    match module {
        Some(module) => "Share "@ + name + "'s "@ + module
            + " module via <a href=\"https://github.com/Not-Nik/mirra\">mirra</a>."@,
        None => "Share any of "@ + name
            + "'s modules via <a href=\"https://github.com/Not-Nik/mirra\">mirra</a>."@,
    }
}

/// The text of an optional string.
pub open spec fn text_of(s: Option<String>) -> Option<Seq<char>> {
    match s {
        Some(s) => Some(s@),
        None => None,
    }
}

/// What a page says about the peer `name` and the module it shows.
pub fn make_description(name: &String, module: &Option<String>) -> (res: String)
    ensures
        res@ == description(name@, text_of(*module)),
{
    match module {
        Some(module) => {
            let res = "Share ".to_owned().concat(name.as_str()).concat("'s ").concat(
                module.as_str(),
            ).concat(" module via <a href=\"https://github.com/Not-Nik/mirra\">mirra</a>.");
            res
        },
        None => {
            let res = "Share any of ".to_owned().concat(name.as_str()).concat(
                "'s modules via <a href=\"https://github.com/Not-Nik/mirra\">mirra</a>.",
            );
            res
        },
    }
}

/// How a page tells to sync the module `module` from `host`; nothing
/// unless both are known.
pub open spec fn setup_hint(host: Option<Seq<char>>, module: Option<Seq<char>>) -> Seq<char> {
    match (host, module) {
        (Some(host), Some(module)) => "mirra sync "@ + host + " "@ + module,
        _ => Seq::empty(),
    }
}

/// One entry of a listing with strings as texts: the path, what is said
/// about it, and whether it can be downloaded.
pub open spec fn entry_texts(entries: Seq<(String, String, bool)>) -> Seq<
    (Seq<char>, Seq<char>, bool),
> {
    Seq::new(entries.len(), |i: int| (entries[i].0@, entries[i].1@, entries[i].2))
}

/// The repeated section for one entry.
pub open spec fn row_text(repeat: Seq<char>, entry: (Seq<char>, Seq<char>, bool)) -> Seq<char> {
    replaced(
        replaced(replaced(repeat, "$path"@, entry.0), "$info"@, entry.1),
        "$download"@,
        if entry.2 {
            "download"@
        } else {
            Seq::empty()
        },
    )
}

/// The repeated section for each entry, one after the other.
pub open spec fn rows_text(repeat: Seq<char>, entries: Seq<(Seq<char>, Seq<char>, bool)>) -> Seq<
    char,
>
    decreases entries.len(),
{
    if entries.len() == 0 {
        Seq::empty()
    } else {
        rows_text(repeat, entries.drop_last()) + row_text(repeat, entries.last())
    }
}

/// The layout outside its repeated section, with its placeholders
/// filled in: `$title`, then `$name`, then `$desc`, then `$setup`.
pub open spec fn frame_text(
    frame: Seq<char>,
    name: Seq<char>,
    module: Option<Seq<char>>,
    host: Option<Seq<char>>,
) -> Seq<char> {
    replaced(
        replaced(
            replaced(replaced(frame, "$title"@, "mirra"@), "$name"@, name),
            "$desc"@,
            description(name, module),
        ),
        "$setup"@,
        setup_hint(host, module),
    )
}

/// The page that a layout gives for a listing.
///
/// The repeated section lies between the first `$(` and the first `)*` of
/// the layout; a layout without them in this order gives the page `error`.
/// The layout without the section has its placeholders filled in. The
/// section is then written once for each entry, with `$path`, `$info` and
/// `$download` filled in, and the rows are put where the section began in
/// the layout, counted in the text with the placeholders filled in. Where
/// that text is too short for this, there is no page.
pub open spec fn list_page(
    layout: Seq<char>,
    entries: Seq<(Seq<char>, Seq<char>, bool)>,
    name: Seq<char>,
    module: Option<Seq<char>>,
    host: Option<Seq<char>>,
) -> Result<Seq<char>, ErrorKind> {
    match section(layout) {
        None => Ok("error"@),
        Some((b, e)) => {
            let frame = frame_text(
                layout.take(b) + layout.skip(e + ")*"@.len()),
                name,
                module,
                host,
            );
            let repeat = layout.subrange(b + "$("@.len(), e);
            if b <= frame.len() {
                Ok(frame.take(b) + rows_text(repeat, entries) + frame.skip(b))
            } else {
                Err(ErrorKind::Other)
            }
        },
    }
}

/// The characters from `from` up to `to`.
fn slice_chars(text: &Vec<char>, from: usize, to: usize) -> (res: Vec<char>)
    requires
        from <= to <= text@.len(),
    ensures
        res@ == text@.subrange(from as int, to as int),
{
    let mut res: Vec<char> = Vec::new();
    let mut k: usize = from;
    while k < to
        invariant
            from <= k <= to,
            to <= text@.len(),
            res@ == text@.subrange(from as int, k as int),
        decreases to - k,
    {
        res.push(text[k]);
        assert(text@.subrange(from as int, k + 1) =~= text@.subrange(from as int, k as int).push(
            text@[k as int],
        ));
        k += 1;
    }
    res
}

/// Where the repeated section of a layout begins and ends: the first
/// index of `$(` and the first of `)*`, if both are there and the second
/// lies behind the first.
pub open spec fn section(layout: Seq<char>) -> Option<(int, int)> {
    let begin = first_match(layout, "$("@);
    let end = first_match(layout, ")*"@);
    if begin is None || end is None || end->0 < begin->0 + "$("@.len() {
        None
    } else {
        Some((begin->0, end->0))
    }
}

/// Where the repeated section of a layout begins and ends.
fn find_section(layout: &Vec<char>) -> (res: Option<(usize, usize)>)
    ensures
        match res {
            Some((b, e)) => section(layout@) == Some((b as int, e as int)) && b + 2 <= e && e + 2
                <= layout@.len(),
            None => section(layout@) is None,
        },
        "$("@.len() == 2,
        ")*"@.len() == 2,
{
    proof {
        reveal_strlit("$(");
        reveal_strlit(")*");
    }
    let open = chars_of("$(");
    let close = chars_of(")*");
    assert(open@.len() == 2 && close@.len() == 2);
    match (find_first(layout, &open), find_first(layout, &close)) {
        (Some(b), Some(e)) => {
            if e < b || e - b < 2 {
                None
            } else {
                Some((b, e))
            }
        },
        _ => None,
    }
}

/// Fills in the placeholders of the layout outside its repeated section.
fn fill_frame(frame: &Vec<char>, name: &String, module: &Option<String>, host: &Option<String>)
    -> (res: Vec<char>)
    ensures
        res@ == frame_text(frame@, name@, text_of(*module), text_of(*host)),
{
    proof {
        reveal_strlit("$title");
        reveal_strlit("$name");
        reveal_strlit("$desc");
        reveal_strlit("$setup");
    }
    let setup = match (host, module) {
        (Some(host), Some(module)) => "mirra sync ".to_owned().concat(host.as_str()).concat(
            " ",
        ).concat(module.as_str()),
        _ => String::new(),
    };
    let desc = make_description(name, module);
    let res = replace_all(frame, &chars_of("$title"), &chars_of("mirra"));
    let res = replace_all(&res, &chars_of("$name"), &chars_of(name.as_str()));
    let res = replace_all(&res, &chars_of("$desc"), &chars_of(desc.as_str()));
    replace_all(&res, &chars_of("$setup"), &chars_of(setup.as_str()))
}

/// Writes the repeated section for one entry.
fn fill_row(repeat: &Vec<char>, entry: &(String, String, bool)) -> (res: Vec<char>)
    ensures
        res@ == row_text(repeat@, (entry.0@, entry.1@, entry.2)),
{
    proof {
        reveal_strlit("$path");
        reveal_strlit("$info");
        reveal_strlit("$download");
        reveal_strlit("");
        assert(""@ =~= Seq::<char>::empty());
    }
    let res = replace_all(repeat, &chars_of("$path"), &chars_of(entry.0.as_str()));
    let res = replace_all(&res, &chars_of("$info"), &chars_of(entry.1.as_str()));
    let mark = if entry.2 {
        chars_of("download")
    } else {
        chars_of("")
    };
    replace_all(&res, &chars_of("$download"), &mark)
}

/// Writes the repeated section for each entry.
fn fill_rows(repeat: &Vec<char>, entries: &Vec<(String, String, bool)>) -> (res: Vec<char>)
    ensures
        res@ == rows_text(repeat@, entry_texts(entries@)),
{
    let ghost all = entry_texts(entries@);
    let mut rows: Vec<char> = Vec::new();
    let mut i: usize = 0;
    assert(all.take(0) =~= Seq::empty());
    while i < entries.len()
        invariant
            i <= entries.len(),
            all == entry_texts(entries@),
            rows@ == rows_text(repeat@, all.take(i as int)),
        decreases entries.len() - i,
    {
        let row = fill_row(repeat, &entries[i]);
        proof {
            assert(all.take(i + 1).drop_last() =~= all.take(i as int));
            assert(all.take(i + 1).last() == (entries@[i as int].0@, entries@[i as int].1@, entries@[i as int].2));
        }
        append_chars(&mut rows, &row);
        i += 1;
    }
    assert(all.take(i as int) =~= all);
    rows
}

/// The page that the layout `layout` gives for the listing `entries` of
/// the peer `name`.
pub fn make_list_page(
    layout: &str,
    entries: &Vec<(String, String, bool)>,
    module: &Option<String>,
    host: &Option<String>,
    name: &String,
) -> (res: Result<String, ErrorKind>)
    ensures
        match list_page(layout@, entry_texts(entries@), name@, text_of(*module), text_of(*host)) {
            Ok(page) => res matches Ok(text) && text@ == page,
            Err(e) => res matches Err(f) && f == e,
        },
{
    let text = chars_of(layout);
    let (b, e) = match find_section(&text) {
        Some(found) => found,
        None => { return Ok("error".to_owned()); },
    };
    let mut stripped = slice_chars(&text, 0, b);
    let tail = slice_chars(&text, e + 2, text.len());
    append_chars(&mut stripped, &tail);
    assert(stripped@ =~= text@.take(b as int) + text@.skip(e + 2));
    let frame = fill_frame(&stripped, name, module, host);
    if b > frame.len() {
        return Err(ErrorKind::Other);
    }
    let repeat = slice_chars(&text, b + 2, e);
    let rows = fill_rows(&repeat, entries);
    let mut page = slice_chars(&frame, 0, b);
    append_chars(&mut page, &rows);
    let rest = slice_chars(&frame, b, frame.len());
    append_chars(&mut page, &rest);
    assert(page@ =~= frame@.take(b as int) + rows@ + frame@.skip(b as int));
    Ok(string_of(&page))
}

} // verus!
