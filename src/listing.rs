//! The text that lists the engine's dictionary.

use vstd::prelude::*;
use crate::dictionary::{dictionary_document, dictionary_words, opt_view, DictWord, WordView};
use crate::text::{chars_of, dec, decimal_chars, push_all, string_of};

verus! {

/// At most this many entries are listed one by one.
pub const MAX_LISTED: usize = 20;

/// A listing longer than this many bytes is replaced by a short notice.
pub const MAX_LISTING_BYTES: usize = 2000;

/// An unreadable document is shown up to this many bytes.
pub const MAX_RAW_BYTES: usize = 1900;

/// Bytes that `c` takes in UTF-8.
pub open spec fn utf8_width(c: char) -> nat {
    if (c as u32) < 0x80 { 1 } else if (c as u32) < 0x800 { 2 } else if (c as u32) < 0x10000 { 3 } else { 4 }
}

/// Bytes that `s` takes in UTF-8.
pub open spec fn utf8_len(s: Seq<char>) -> nat
    decreases s.len(),
{
    if s.len() == 0 { 0 } else { utf8_len(s.drop_last()) + utf8_width(s.last()) }
}

/// The longest prefix of `s` that takes at most `n` bytes.
pub open spec fn byte_prefix(s: Seq<char>, n: nat) -> Seq<char>
    decreases s.len(),
{
    if utf8_len(s) <= n || s.len() == 0 { s } else { byte_prefix(s.drop_last(), n) }
}

pub open spec fn or_unknown(s: Option<Seq<char>>) -> Seq<char> {
    match s {
        Some(x) => x,
        None => "不明"@,
    }
}

/// The line for one entry.
pub open spec fn entry_line(w: WordView) -> Seq<char> {
    "**"@ + or_unknown(w.surface) + "** → "@ + or_unknown(w.pronunciation) + " (アクセント: "@
        + dec(match w.accent_type { Some(a) => a as nat, None => 0 }) + ")"@
}

/// The lines of the members that are entries, in order.
pub open spec fn entry_lines(ws: Seq<WordView>) -> Seq<Seq<char>>
    decreases ws.len(),
{
    if ws.len() == 0 {
        Seq::empty()
    } else if ws.last().is_object {
        entry_lines(ws.drop_last()).push(entry_line(ws.last()))
    } else {
        entry_lines(ws.drop_last())
    }
}

/// The lines joined by line breaks.
pub open spec fn joined(lines: Seq<Seq<char>>) -> Seq<char>
    decreases lines.len(),
{
    if lines.len() == 0 {
        Seq::empty()
    } else if lines.len() == 1 {
        lines[0]
    } else {
        joined(lines.drop_last()) + seq!['\n'] + lines.last()
    }
}

/// The lines shown: all of them, or the first ones and a count of the rest.
pub open spec fn shown_lines(lines: Seq<Seq<char>>, total: nat) -> Seq<Seq<char>> {
    if lines.len() > MAX_LISTED {
        lines.take(MAX_LISTED as int).push("... 他"@ + dec((total - MAX_LISTED) as nat) + "件"@)
    } else {
        lines
    }
}

pub open spec fn header(total: nat) -> Seq<char> {
    "**登録単語数:** "@ + dec(total) + "件\n\n"@
}

pub open spec fn no_words() -> Seq<char> {
    "辞書に登録されている単語はありません"@
}

pub open spec fn too_many(total: nat) -> Seq<char> {
    header(total) + "登録単語が多すぎるため、詳細な一覧を表示できません。\n`/dictionary remove` で不要な単語を削除してください。"@
}

/// A document that is not JSON, shown as it stands, cut after
/// `MAX_RAW_BYTES` bytes.
pub open spec fn raw_listing(doc: Seq<char>) -> Seq<char> {
    let shown = if utf8_len(doc) > MAX_RAW_BYTES {
        byte_prefix(doc, MAX_RAW_BYTES as nat) + "...\n\n*データが長すぎるため一部省略されました*"@
    } else {
        doc
    };
    "```json\n"@ + shown + "\n```"@
}

/// The listing of the members `ws`.
pub open spec fn members_listing(ws: Seq<WordView>) -> Seq<char> {
    let shown = shown_lines(entry_lines(ws), ws.len());
    if shown.len() == 0 {
        no_words()
    } else {
        let d = header(ws.len()) + joined(shown);
        if utf8_len(d) > MAX_LISTING_BYTES { too_many(ws.len()) } else { d }
    }
}

/// The listing of a fetched dictionary document.
pub open spec fn listing(doc: Seq<char>) -> Seq<char> {
    match dictionary_document(doc) {
        None => raw_listing(doc),
        Some(None) => no_words(),
        Some(Some(ws)) => members_listing(ws),
    }
}

fn utf8_width_of(c: char) -> (r: usize)
    ensures
        r == utf8_width(c),
{
    let v = c as u32;
    if v < 0x80 { 1 } else if v < 0x800 { 2 } else if v < 0x10000 { 3 } else { 4 }
}

proof fn lemma_byte_prefix(s: Seq<char>, n: nat, k: int)
    requires
        0 <= k <= s.len(),
        utf8_len(s.subrange(0, k)) <= n,
        k == s.len() || utf8_len(s.subrange(0, k + 1)) > n,
    ensures
        byte_prefix(s, n) == s.subrange(0, k),
    decreases s.len(),
{
    if k == s.len() {
        assert(s.subrange(0, k) =~= s);
    } else {
        lemma_utf8_len_mono(s, k + 1);
        assert(utf8_len(s) > n);
        let t = s.drop_last();
        assert(t.subrange(0, k) =~= s.subrange(0, k));
        if k < t.len() {
            assert(t.subrange(0, k + 1) =~= s.subrange(0, k + 1));
        }
        lemma_byte_prefix(t, n, k);
    }
}

proof fn lemma_utf8_len_mono(s: Seq<char>, k: int)
    requires
        0 <= k <= s.len(),
    ensures
        utf8_len(s.subrange(0, k)) <= utf8_len(s),
    decreases s.len() - k,
{
    if k < s.len() {
        lemma_utf8_len_mono(s, k + 1);
        assert(s.subrange(0, k + 1).drop_last() =~= s.subrange(0, k));
        assert(utf8_len(s.subrange(0, k + 1)) == utf8_len(s.subrange(0, k)) + utf8_width(s.subrange(0, k + 1).last()));
    } else {
        assert(s.subrange(0, k) =~= s);
    }
}

/// The longest prefix of `s` that takes at most `n` bytes.
fn prefix_within(s: &Vec<char>, n: usize) -> (r: Vec<char>)
    ensures
        r@ == byte_prefix(s@, n as nat),
{
    let mut out: Vec<char> = Vec::new();
    let mut used: usize = 0;
    let mut i: usize = 0;
    while i < s.len()
        invariant_except_break
            i <= s@.len(),
            used <= n,
            used == utf8_len(s@.subrange(0, i as int)),
            out@ == s@.subrange(0, i as int),
        ensures
            i <= s@.len(),
            out@ == s@.subrange(0, i as int),
            utf8_len(s@.subrange(0, i as int)) <= n,
            i == s@.len() || utf8_len(s@.subrange(0, i + 1)) > n,
        decreases s.len() - i,
    {
        let w = utf8_width_of(s[i]);
        assert(s@.subrange(0, i + 1).drop_last() =~= s@.subrange(0, i as int));
        if w > n - used {
            break;
        }
        used = used + w;
        out.push(s[i]);
        i += 1;
        assert(out@ =~= s@.subrange(0, i as int));
    }
    proof {
        lemma_byte_prefix(s@, n as nat, i as int);
    }
    out
}

fn entry_line_of(w: &DictWord) -> (r: Vec<char>)
    requires
        w.is_object,
    ensures
        r@ == entry_line(w@),
{
    let unknown = chars_of("不明");
    let mut out = chars_of("**");
    match &w.surface {
        Some(s) => push_all(&mut out, &chars_of(s.as_str())),
        None => push_all(&mut out, &unknown),
    }
    push_all(&mut out, &chars_of("** → "));
    match &w.pronunciation {
        Some(p) => push_all(&mut out, &chars_of(p.as_str())),
        None => push_all(&mut out, &unknown),
    }
    push_all(&mut out, &chars_of(" (アクセント: "));
    let accent: u64 = match w.accent_type {
        Some(a) => a,
        None => 0,
    };
    push_all(&mut out, &decimal_chars(accent));
    push_all(&mut out, &chars_of(")"));
    proof {
        assert(opt_view(w.surface) == w@.surface);
    }
    out
}

fn entry_lines_of(ws: &Vec<DictWord>) -> (r: Vec<Vec<char>>)
    ensures
        r@.len() == entry_lines(Seq::new(ws@.len(), |i: int| ws@[i]@)).len(),
        forall|i: int| 0 <= i < r@.len() ==> (#[trigger] r@[i])@ == entry_lines(Seq::new(ws@.len(), |i: int| ws@[i]@))[i],
{
    let ghost wv = Seq::new(ws@.len(), |i: int| ws@[i]@);
    let mut r: Vec<Vec<char>> = Vec::new();
    let mut i: usize = 0;
    while i < ws.len()
        invariant
            i <= ws@.len(),
            wv == Seq::new(ws@.len(), |i: int| ws@[i]@),
            r@.len() == entry_lines(wv.subrange(0, i as int)).len(),
            forall|q: int| 0 <= q < r@.len() ==> (#[trigger] r@[q])@ == entry_lines(wv.subrange(0, i as int))[q],
        decreases ws.len() - i,
    {
        assert(wv.subrange(0, i + 1).drop_last() =~= wv.subrange(0, i as int));
        assert(wv.subrange(0, i + 1).last() == ws@[i as int]@);
        if ws[i].is_object {
            let line = entry_line_of(&ws[i]);
            r.push(line);
        }
        i += 1;
    }
    assert(wv.subrange(0, ws@.len() as int) =~= wv);
    r
}


/// Whether `s` takes more than `limit` bytes in UTF-8.
fn exceeds_bytes(s: &Vec<char>, limit: usize) -> (r: bool)
    requires
        limit < usize::MAX - 4,
    ensures
        r == (utf8_len(s@) > limit),
{
    let mut used: usize = 0;
    let mut i: usize = 0;
    while i < s.len()
        invariant
            i <= s@.len(),
            limit < usize::MAX - 4,
            used <= limit,
            used == utf8_len(s@.subrange(0, i as int)),
        decreases s.len() - i,
    {
        assert(s@.subrange(0, i + 1).drop_last() =~= s@.subrange(0, i as int));
        used = used + utf8_width_of(s[i]);
        i += 1;
        if used > limit {
            proof {
                lemma_utf8_len_mono(s@, i as int);
            }
            return true;
        }
    }
    assert(s@.subrange(0, s@.len() as int) =~= s@);
    false
}

pub open spec fn lines_view(lines: Seq<Vec<char>>) -> Seq<Seq<char>> {
    Seq::new(lines.len(), |i: int| lines[i]@)
}

fn joined_of(lines: &Vec<Vec<char>>) -> (r: Vec<char>)
    ensures
        r@ == joined(lines_view(lines@)),
{
    let ghost lv = lines_view(lines@);
    let mut out: Vec<char> = Vec::new();
    let mut i: usize = 0;
    while i < lines.len()
        invariant
            i <= lines@.len(),
            lv == lines_view(lines@),
            out@ == joined(lv.subrange(0, i as int)),
        decreases lines.len() - i,
    {
        assert(lv.subrange(0, i + 1).drop_last() =~= lv.subrange(0, i as int));
        if i > 0 {
            out.push('\n');
        }
        push_all(&mut out, &lines[i]);
        proof {
            if i == 0 {
                assert(out@ =~= lv.subrange(0, 1)[0]);
            }
        }
        i += 1;
    }
    assert(lv.subrange(0, lines@.len() as int) =~= lv);
    out
}

fn members_listing_of(ws: &Vec<DictWord>) -> (r: Vec<char>)
    ensures
        r@ == members_listing(Seq::new(ws@.len(), |i: int| ws@[i]@)),
{
    let ghost wv = Seq::new(ws@.len(), |i: int| ws@[i]@);
    let lines = entry_lines_of(ws);
    let total = ws.len();
    let ghost all = entry_lines(wv);
    assert(lines_view(lines@) =~= all);
    let mut shown: Vec<Vec<char>> = Vec::new();
    let mut i: usize = 0;
    let n = if lines.len() > MAX_LISTED { MAX_LISTED } else { lines.len() };
    while i < n
        invariant
            i <= n <= lines@.len(),
            lines_view(lines@) == all,
            lines_view(shown@) == all.subrange(0, i as int),
        decreases n - i,
    {
        let mut line: Vec<char> = Vec::new();
        push_all(&mut line, &lines[i]);
        assert(line@ =~= lines@[i as int]@);
        assert(all[i as int] == lines_view(lines@)[i as int]);
        let ghost prev = shown@;
        shown.push(line);
        assert(lines_view(shown@) =~= lines_view(prev).push(all[i as int]));
        assert(all.subrange(0, i + 1) =~= all.subrange(0, i as int).push(all[i as int]));
        i += 1;
    }
    proof {
        lemma_entry_lines_len(wv);
    }
    if lines.len() > MAX_LISTED {
        let mut more = chars_of("... 他");
        push_all(&mut more, &decimal_chars((total - MAX_LISTED) as u64));
        push_all(&mut more, &chars_of("件"));
        shown.push(more);
        assert(lines_view(shown@) =~= all.take(MAX_LISTED as int).push(
            "... 他"@ + dec((total - MAX_LISTED) as nat) + "件"@,
        ));
    } else {
        assert(all.subrange(0, all.len() as int) =~= all);
    }
    if shown.len() == 0 {
        return chars_of("辞書に登録されている単語はありません");
    }
    let mut d = chars_of("**登録単語数:** ");
    push_all(&mut d, &decimal_chars(total as u64));
    push_all(&mut d, &chars_of("件\n\n"));
    let body = joined_of(&shown);
    push_all(&mut d, &body);
    if exceeds_bytes(&d, MAX_LISTING_BYTES) {
        let mut t = chars_of("**登録単語数:** ");
        push_all(&mut t, &decimal_chars(total as u64));
        push_all(&mut t, &chars_of("件\n\n"));
        push_all(&mut t, &chars_of("登録単語が多すぎるため、詳細な一覧を表示できません。\n`/dictionary remove` で不要な単語を削除してください。"));
        return t;
    }
    d
}

proof fn lemma_entry_lines_len(ws: Seq<WordView>)
    ensures
        entry_lines(ws).len() <= ws.len(),
    decreases ws.len(),
{
    if ws.len() > 0 {
        lemma_entry_lines_len(ws.drop_last());
    }
}

/// The text listing a fetched dictionary document: each entry's surface,
/// pronunciation and accent position (the first `MAX_LISTED` of them, then a
/// count of the rest) under the number of members; a notice where that runs
/// past `MAX_LISTING_BYTES` bytes or where there is nothing to list; and the
/// document itself where it is not JSON.
pub fn list_dictionary(doc: &str) -> (r: String)
    ensures
        r@ == listing(doc@),
{
    match dictionary_words(doc) {
        Ok(ws) => {
            let out = members_listing_of(&ws);
            proof {
                let wv = Seq::new(ws@.len(), |i: int| ws@[i]@);
                if ws@.len() == 0 {
                    assert(entry_lines(wv) =~= Seq::<Seq<char>>::empty());
                }
                assert(wv =~= crate::dictionary::words_view(ws@));
            }
            string_of(&out)
        },
        Err(_) => {
            let raw = chars_of(doc);
            let mut out = chars_of("```json\n");
            if exceeds_bytes(&raw, MAX_RAW_BYTES) {
                push_all(&mut out, &prefix_within(&raw, MAX_RAW_BYTES));
                push_all(&mut out, &chars_of("...\n\n*データが長すぎるため一部省略されました*"));
            } else {
                push_all(&mut out, &raw);
            }
            push_all(&mut out, &chars_of("\n```"));
            string_of(&out)
        },
    }
}

} // verus!
