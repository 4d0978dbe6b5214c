//! Turns a raw chat message into speakable plain text.

use vstd::prelude::*;

verus! {

/// Membership of a character in the Unicode `\w` class.
pub uninterp spec fn word_char(c: char) -> bool;

/// Membership of a character in the Unicode `\d` class (general category Nd).
pub uninterp spec fn decimal_digit(c: char) -> bool;

/// Membership of a character in the Unicode `White_Space` property.
pub uninterp spec fn white_space(c: char) -> bool;

/// Relies on `regex_syntax::is_word_character`: whether `c` is a Unicode word
/// character (Alphabetic, Join_Control, Decimal_Number, Mark or
/// Connector_Punctuation), as the `\w` class of a regex.
#[verifier::external_body]
fn is_word_char(c: char) -> (r: bool)
    ensures
        r == word_char(c),
        ('a' <= c <= 'z' || 'A' <= c <= 'Z' || '0' <= c <= '9' || c == '_') ==> r,
{
    regex_syntax::is_word_character(c)
}

/// Relies on `regex::Regex` with the pattern `\A\d\z`: whether `c` alone is
/// matched by the Unicode `\d` class.
#[verifier::external_body]
fn is_decimal_digit(c: char) -> (r: bool)
    ensures
        r == decimal_digit(c),
{
    let mut buf = [0u8; 4];
    match regex::Regex::new(r"\A\d\z") {
        Ok(re) => re.is_match(c.encode_utf8(&mut buf)),
        Err(_) => false,
    }
}

/// Relies on `char::is_whitespace`: the Unicode `White_Space` property.
#[verifier::external_body]
fn is_white_space(c: char) -> (r: bool)
    ensures
        r == white_space(c),
{
    c.is_whitespace()
}

/// Relies on `str::chars` collected into a vector: the characters of `s`.
#[verifier::external_body]
pub(crate) fn chars_of(s: &str) -> (r: Vec<char>)
    ensures
        r@ == s@,
{
    s.chars().collect()
}

/// Relies on `String: FromIterator<char>`: the string made of `v`'s characters.
#[verifier::external_body]
pub(crate) fn string_of(v: &Vec<char>) -> (r: String)
    ensures
        r@ == v@,
{
    v.iter().collect()
}

/// The ASCII digit for `d` in `0..10`.
pub open spec fn digit_char(d: int) -> char {
    if d == 0 { '0' }
    else if d == 1 { '1' }
    else if d == 2 { '2' }
    else if d == 3 { '3' }
    else if d == 4 { '4' }
    else if d == 5 { '5' }
    else if d == 6 { '6' }
    else if d == 7 { '7' }
    else if d == 8 { '8' }
    else { '9' }
}

/// Decimal notation of `n`, without leading zeros.
pub open spec fn dec(n: nat) -> Seq<char>
    decreases n,
{
    if n < 10 {
        seq![digit_char(n as int)]
    } else {
        dec(n / 10).push(digit_char((n % 10) as int))
    }
}

fn digit_char_of(d: u64) -> (c: char)
    requires
        d < 10,
    ensures
        c == digit_char(d as int),
{
    if d == 0 { '0' }
    else if d == 1 { '1' }
    else if d == 2 { '2' }
    else if d == 3 { '3' }
    else if d == 4 { '4' }
    else if d == 5 { '5' }
    else if d == 6 { '6' }
    else if d == 7 { '7' }
    else if d == 8 { '8' }
    else { '9' }
}

/// The decimal notation of `n`.
pub fn decimal_chars(n: u64) -> (r: Vec<char>)
    ensures
        r@ == dec(n as nat),
    decreases n,
{
    if n < 10 {
        vec![digit_char_of(n)]
    } else {
        let mut v = decimal_chars(n / 10);
        v.push(digit_char_of(n % 10));
        v
    }
}


/// A resolved mention: the user's numeric id and the name to speak for it.
pub struct Mention {
    pub user_id: u64,
    pub display_name: String,
}

/// The mentions as (id, name) pairs.
pub open spec fn mentions_view(ms: Seq<Mention>) -> Seq<(u64, Seq<char>)> {
    Seq::new(ms.len(), |i: int| (ms[i].user_id, ms[i].display_name@))
}

/// Spoken in place of a mention token, before the display name.
pub open spec fn mention_marker() -> Seq<char> {
    seq!['ア', 'ッ', 'ト', 'マ', 'ー', 'ク']
}

/// What a mention of a user called `name` becomes.
pub open spec fn mention_text(name: Seq<char>) -> Seq<char> {
    mention_marker() + name + seq!['、']
}

/// Length of the mention token `<@id>` or `<@!id>` at the start of `t`, or 0.
pub open spec fn mention_len(t: Seq<char>, id: u64) -> int {
    let d = dec(id as nat);
    let s: int = if t.len() > 2 && t[2] == '!' { 3 } else { 2 };
    if t.len() >= s + d.len() + 1 && t[0] == '<' && t[1] == '@' && t.subrange(s, s + d.len()) == d
        && t[s + d.len()] == '>' {
        s + d.len() + 1
    } else {
        0
    }
}

/// Index of the first mention from `k` on whose token starts `t`, or `ms.len()`.
pub open spec fn mention_index(t: Seq<char>, ms: Seq<(u64, Seq<char>)>, k: int) -> int
    decreases ms.len() - k,
{
    if k < 0 || k >= ms.len() {
        ms.len() as int
    } else if mention_len(t, ms[k].0) > 0 {
        k
    } else {
        mention_index(t, ms, k + 1)
    }
}

/// Each mention token of a listed user replaced by its spoken form, scanning
/// from left to right.
pub open spec fn mention_pass(t: Seq<char>, ms: Seq<(u64, Seq<char>)>) -> Seq<char>
    decreases t.len(),
{
    if t.len() == 0 {
        Seq::empty()
    } else {
        let k = mention_index(t, ms, 0);
        if 0 <= k < ms.len() && 0 < mention_len(t, ms[k].0) <= t.len() {
            mention_text(ms[k].1) + mention_pass(t.subrange(mention_len(t, ms[k].0), t.len() as int), ms)
        } else {
            seq![t[0]] + mention_pass(t.subrange(1, t.len() as int), ms)
        }
    }
}

proof fn lemma_mention_index_bounds(t: Seq<char>, ms: Seq<(u64, Seq<char>)>, k: int)
    requires
        0 <= k <= ms.len(),
    ensures
        k <= mention_index(t, ms, k) <= ms.len(),
        mention_index(t, ms, k) < ms.len() ==> mention_len(t, ms[mention_index(t, ms, k)].0) > 0,
        forall|j: int| k <= j < mention_index(t, ms, k) ==> mention_len(t, #[trigger] ms[j].0) == 0,
    decreases ms.len() - k,
{
    if k < ms.len() && mention_len(t, ms[k].0) == 0 {
        lemma_mention_index_bounds(t, ms, k + 1);
    }
}

/// Length of the token for the id whose notation is `digits` at `t[i..]`, or 0.
fn mention_len_at(t: &Vec<char>, i: usize, digits: &Vec<char>, Ghost(id): Ghost<u64>) -> (l: usize)
    requires
        i <= t.len(),
        digits@ == dec(id as nat),
    ensures
        l as int == mention_len(t@.subrange(i as int, t.len() as int), id),
{
    let ghost u = t@.subrange(i as int, t.len() as int);
    let n = t.len();
    if n - i < 3 || t[i] != '<' || t[i + 1] != '@' {
        return 0;
    }
    let s: usize = if t[i + 2] == '!' { 3 } else { 2 };
    let d = digits.len();
    if n - i < s + 1 || n - i - s - 1 < d {
        return 0;
    }
    let mut j: usize = 0;
    while j < d
        invariant
            j <= d,
            d == digits.len(),
            digits@ == dec(id as nat),
            i + s + d + 1 <= n,
            n == t.len(),
            u == t@.subrange(i as int, n as int),
            s as int == (if u.len() > 2 && u[2] == '!' { 3int } else { 2int }),
            forall|q: int| 0 <= q < j ==> u[s + q] == digits@[q],
        decreases d - j,
    {
        if t[i + s + j] != digits[j] {
            assert(u[s + j] == t@[i + s + j]);
            assert(u.subrange(s as int, s + d)[j as int] == u[s + j]);
            assert(u.subrange(s as int, s + d) != digits@);
            return 0;
        }
        j += 1;
    }
    assert(u.subrange(s as int, s + d) =~= digits@);
    if t[i + s + d] != '>' {
        return 0;
    }
    s + d + 1
}


/// Appends the characters of `s` to `out`.
pub(crate) fn push_all(out: &mut Vec<char>, s: &Vec<char>)
    ensures
        final(out)@ == old(out)@ + s@,
{
    let mut j: usize = 0;
    while j < s.len()
        invariant
            j <= s.len(),
            out@ == old(out)@ + s@.subrange(0, j as int),
        decreases s.len() - j,
    {
        out.push(s[j]);
        j += 1;
        assert(out@ =~= old(out)@ + s@.subrange(0, j as int));
    }
    assert(s@.subrange(0, s.len() as int) =~= s@);
}

fn mention_marker_chars() -> (r: Vec<char>)
    ensures
        r@ == mention_marker(),
{
    let r = vec!['ア', 'ッ', 'ト', 'マ', 'ー', 'ク'];
    assert(r@ =~= mention_marker());
    r
}

proof fn lemma_mention_index_is(t: Seq<char>, ms: Seq<(u64, Seq<char>)>, k: int)
    requires
        0 <= k <= ms.len(),
        forall|j: int| 0 <= j < k ==> mention_len(t, #[trigger] ms[j].0) == 0,
        k < ms.len() ==> mention_len(t, ms[k].0) > 0,
    ensures
        mention_index(t, ms, 0) == k,
{
    lemma_mention_index_bounds(t, ms, 0);
    let x = mention_index(t, ms, 0);
    if x < k {
        assert(mention_len(t, ms[x].0) == 0);
    } else if x > k {
        assert(mention_len(t, ms[k].0) == 0);
    }
}

fn mention_pass_chars(t: &Vec<char>, mentions: &Vec<Mention>) -> (r: Vec<char>)
    ensures
        r@ == mention_pass(t@, mentions_view(mentions@)),
{
    let ghost msv = mentions_view(mentions@);
    let m = mentions.len();
    let mut ids: Vec<Vec<char>> = Vec::new();
    let mut names: Vec<Vec<char>> = Vec::new();
    let mut k: usize = 0;
    while k < m
        invariant
            k <= m,
            m == mentions.len(),
            msv == mentions_view(mentions@),
            ids.len() == k,
            names.len() == k,
            forall|q: int| 0 <= q < k ==> (#[trigger] ids[q])@ == dec(msv[q].0 as nat),
            forall|q: int| 0 <= q < k ==> (#[trigger] names[q])@ == msv[q].1,
        decreases m - k,
    {
        ids.push(decimal_chars(mentions[k].user_id));
        names.push(chars_of(mentions[k].display_name.as_str()));
        k += 1;
    }
    let marker = mention_marker_chars();
    let n = t.len();
    let mut out: Vec<char> = Vec::new();
    let mut i: usize = 0;
    assert(t@.subrange(0, n as int) =~= t@);
    assert(out@ + mention_pass(t@, msv) =~= mention_pass(t@, msv));
    while i < n
        invariant
            i <= n,
            n == t.len(),
            m == mentions.len(),
            msv == mentions_view(mentions@),
            ids.len() == m,
            names.len() == m,
            marker@ == mention_marker(),
            forall|q: int| 0 <= q < m ==> (#[trigger] ids[q])@ == dec(msv[q].0 as nat),
            forall|q: int| 0 <= q < m ==> (#[trigger] names[q])@ == msv[q].1,
            out@ + mention_pass(t@.subrange(i as int, n as int), msv) == mention_pass(t@, msv),
        decreases n - i,
    {
        let ghost u = t@.subrange(i as int, n as int);
        let mut k: usize = 0;
        let mut found: usize = 0;
        while k < m
            invariant_except_break
                found == 0,
            invariant
                k <= m,
                i < n,
                n == t.len(),
                m == mentions.len(),
                msv == mentions_view(mentions@),
                ids.len() == m,
                u == t@.subrange(i as int, n as int),
                forall|q: int| 0 <= q < m ==> (#[trigger] ids[q])@ == dec(msv[q].0 as nat),
                forall|j: int| 0 <= j < k ==> mention_len(u, #[trigger] msv[j].0) == 0,
            ensures
                found == 0 ==> k == m,
                found > 0 ==> k < m && found as int == mention_len(u, msv[k as int].0),
            decreases m - k,
        {
            let l = mention_len_at(t, i, &ids[k], Ghost(mentions[k as int].user_id));
            if l > 0 {
                found = l;
                break;
            }
            k += 1;
        }
        proof {
            lemma_mention_index_is(u, msv, k as int);
        }
        if found > 0 {
            push_all(&mut out, &marker);
            push_all(&mut out, &names[k]);
            out.push('、');
            proof {
                assert(u.subrange(found as int, u.len() as int) =~= t@.subrange(i + found, n as int));
                assert(mention_text(msv[k as int].1) =~= marker@ + names[k as int]@ + seq!['、']);
            }
            i = i + found;
        } else {
            out.push(t[i]);
            proof {
                assert(u.subrange(1, u.len() as int) =~= t@.subrange(i + 1, n as int));
            }
            i = i + 1;
        }
    }
    assert(out@ =~= out@ + mention_pass(t@.subrange(i as int, n as int), msv));
    out
}

/// Replaces each mention token `<@id>` or `<@!id>` of a listed user with the
/// mention marker, the user's display name and a separator. Where a user is
/// listed twice, the first entry's name is used.
pub fn replace_user_mentions(text: &str, mentions: &Vec<Mention>) -> (r: String)
    ensures
        r@ == mention_pass(text@, mentions_view(mentions@)),
{
    let t = chars_of(text);
    let out = mention_pass_chars(&t, mentions);
    string_of(&out)
}


/// The character classes that the token grammars use.
#[derive(Clone, Copy, PartialEq, Eq, Structural)]
pub enum CharClass {
    /// `\w`
    Word,
    /// `\d`
    Digit,
    /// The characters allowed after a URL's scheme.
    UrlChar,
}

/// Characters allowed in a URL after `http://` or `https://`: `\w` (which
/// takes in the ASCII letters, digits and `_`) and
/// `! ? / + - _ ~ ; . , * & @ # $ % ( ) = ' ]`.
#[verifier::opaque]
pub open spec fn url_char(c: char) -> bool {
    'a' <= c <= 'z' || 'A' <= c <= 'Z' || '0' <= c <= '9' || word_char(c) || c == '!'
        || c == '?' || c == '/' || c == '+' || c == '-' || c == '_' || c == '~' || c == ';' || c == '.' || c == ',' || c == '*' || c == '&' || c == '@'
        || c == '#' || c == '$' || c == '%' || c == '(' || c == ')' || c == '=' || c == '\''
        || c == ']'
}

pub open spec fn in_class(c: char, class: CharClass) -> bool {
    match class {
        CharClass::Word => word_char(c),
        CharClass::Digit => decimal_digit(c),
        CharClass::UrlChar => url_char(c),
    }
}

/// Length of the longest run of `class` characters in `t` from index `i`.
pub open spec fn run(t: Seq<char>, i: int, class: CharClass) -> int
    decreases t.len() - i,
{
    if 0 <= i < t.len() && in_class(t[i], class) {
        1 + run(t, i + 1, class)
    } else {
        0
    }
}

proof fn lemma_run_bounds(t: Seq<char>, i: int, class: CharClass)
    ensures
        0 <= run(t, i, class),
        run(t, i, class) == 0 || (0 <= i && i + run(t, i, class) <= t.len()),
    decreases t.len() - i,
{
    if 0 <= i < t.len() && in_class(t[i], class) {
        lemma_run_bounds(t, i + 1, class);
    }
}

proof fn lemma_run_shift(t: Seq<char>, i: int, a: int, class: CharClass)
    requires
        0 <= i <= t.len(),
        0 <= a,
    ensures
        run(t.subrange(i, t.len() as int), a, class) == run(t, i + a, class),
    decreases t.len() - i - a,
{
    let u = t.subrange(i, t.len() as int);
    if a < u.len() && in_class(u[a], class) {
        lemma_run_shift(t, i, a + 1, class);
    }
}

fn in_class_exec(c: char, class: CharClass) -> (r: bool)
    ensures
        r == in_class(c, class),
{
    match class {
        CharClass::Word => is_word_char(c),
        CharClass::Digit => is_decimal_digit(c),
        CharClass::UrlChar => {
            reveal(url_char);
            c == '!' || c == '?' || c == '/' || c == '+' || c == '-' || c == '_' || c == '~'
                || c == ';' || c == '.' || c == ',' || c == '*' || c == '&' || c == '@'
                || c == '#' || c == '$' || c == '%' || c == '(' || c == ')' || c == '='
                || c == '\'' || c == ']' || is_word_char(c)
        },
    }
}

fn run_at(t: &Vec<char>, i: usize, class: CharClass) -> (r: usize)
    requires
        i <= t.len(),
    ensures
        r as int == run(t@, i as int, class),
        i + r <= t.len(),
{
    let mut j: usize = i;
    while j < t.len() && in_class_exec(t[j], class)
        invariant
            i <= j <= t.len(),
            run(t@, i as int, class) == (j - i) + run(t@, j as int, class),
        decreases t.len() - j,
    {
        j += 1;
    }
    j - i
}

/// Length of the custom emoji token `<:name:id>` or `<a:name:id>` at the
/// start of `t` (name of `\w` characters, id of `\d` characters), or 0.
pub open spec fn emoji_len(t: Seq<char>) -> int {
    let s: int = if t.len() > 1 && t[1] == 'a' { 2 } else { 1 };
    let w = run(t, s + 1, CharClass::Word);
    let d = run(t, s + w + 2, CharClass::Digit);
    if t.len() > s + w + d + 2 && t[0] == '<' && t[s] == ':' && w > 0 && t[s + w + 1] == ':'
        && d > 0 && t[s + w + d + 2] == '>' {
        s + w + d + 3
    } else {
        0
    }
}

/// Every custom emoji token removed, scanning from left to right.
pub open spec fn emoji_pass(t: Seq<char>) -> Seq<char>
    decreases t.len(),
{
    if t.len() == 0 {
        Seq::empty()
    } else if 0 < emoji_len(t) <= t.len() {
        emoji_pass(t.subrange(emoji_len(t), t.len() as int))
    } else {
        seq![t[0]] + emoji_pass(t.subrange(1, t.len() as int))
    }
}

fn emoji_len_at(t: &Vec<char>, i: usize) -> (l: usize)
    requires
        i < t.len(),
    ensures
        l as int == emoji_len(t@.subrange(i as int, t.len() as int)),
        l <= t.len() - i,
{
    let ghost u = t@.subrange(i as int, t.len() as int);
    let n = t.len();
    let s: usize = if n - i > 1 && t[i + 1] == 'a' { 2 } else { 1 };
    proof {
        lemma_run_bounds(u, s + 1, CharClass::Word);
    }
    if t[i] != '<' || n - i <= s || t[i + s] != ':' {
        return 0;
    }
    let w = run_at(t, i + s + 1, CharClass::Word);
    proof {
        lemma_run_shift(t@, i as int, s + 1, CharClass::Word);
        lemma_run_bounds(u, s + w + 2, CharClass::Digit);
    }
    if w == 0 || n - i - s - 1 - w < 1 || t[i + s + 1 + w] != ':' {
        return 0;
    }
    let d = run_at(t, i + s + w + 2, CharClass::Digit);
    proof {
        lemma_run_shift(t@, i as int, s + w + 2, CharClass::Digit);
    }
    if d == 0 || n - i - s - w - 2 - d < 1 || t[i + s + w + 2 + d] != '>' {
        return 0;
    }
    s + w + d + 3
}

fn emoji_pass_chars(t: &Vec<char>) -> (r: Vec<char>)
    ensures
        r@ == emoji_pass(t@),
{
    let n = t.len();
    let mut out: Vec<char> = Vec::new();
    let mut i: usize = 0;
    assert(t@.subrange(0, n as int) =~= t@);
    assert(out@ + emoji_pass(t@) =~= emoji_pass(t@));
    while i < n
        invariant
            i <= n,
            n == t.len(),
            out@ + emoji_pass(t@.subrange(i as int, n as int)) == emoji_pass(t@),
        decreases n - i,
    {
        let ghost u = t@.subrange(i as int, n as int);
        let l = emoji_len_at(t, i);
        if l > 0 {
            proof {
                assert(u.subrange(l as int, u.len() as int) =~= t@.subrange(i + l, n as int));
            }
            i = i + l;
        } else {
            out.push(t[i]);
            proof {
                assert(u.subrange(1, u.len() as int) =~= t@.subrange(i + 1, n as int));
            }
            i = i + 1;
        }
    }
    assert(out@ =~= out@ + emoji_pass(t@.subrange(i as int, n as int)));
    out
}


/// Length of the scheme part `http://` or `https://` of a URL that starts
/// `t`, where at least one URL character follows it, or 0.
pub open spec fn url_scheme_len(t: Seq<char>) -> int {
    if t.len() > 8 && t[0] == 'h' && t[1] == 't' && t[2] == 't' && t[3] == 'p' && t[4] == 's'
        && t[5] == ':' && t[6] == '/' && t[7] == '/' && url_char(t[8]) {
        8
    } else if t.len() > 7 && t[0] == 'h' && t[1] == 't' && t[2] == 't' && t[3] == 'p'
        && t[4] == ':' && t[5] == '/' && t[6] == '/' && url_char(t[7]) {
        7
    } else {
        0
    }
}

/// Length of the URL-shaped text `https?://` followed by the longest run of URL
/// characters at the start of `t`, or 0.
pub open spec fn url_len(t: Seq<char>) -> int {
    let p = url_scheme_len(t);
    if p > 0 {
        p + run(t, p, CharClass::UrlChar)
    } else {
        0
    }
}

/// Spoken in place of a URL.
pub open spec fn url_marker() -> Seq<char> {
    seq!['U', 'R', 'L', '、']
}

/// Every URL-shaped substring replaced by the URL marker, scanning from left
/// to right.
pub open spec fn url_pass(t: Seq<char>) -> Seq<char>
    decreases t.len(),
{
    if t.len() == 0 {
        Seq::empty()
    } else if 0 < url_len(t) <= t.len() {
        url_marker() + url_pass(t.subrange(url_len(t), t.len() as int))
    } else {
        seq![t[0]] + url_pass(t.subrange(1, t.len() as int))
    }
}

fn url_len_at(t: &Vec<char>, i: usize) -> (l: usize)
    requires
        i < t.len(),
    ensures
        l as int == url_len(t@.subrange(i as int, t.len() as int)),
        l <= t.len() - i,
{
    let ghost u = t@.subrange(i as int, t.len() as int);
    let n = t.len();
    let p: usize = if n - i > 8 && t[i] == 'h' && t[i + 1] == 't' && t[i + 2] == 't' && t[i + 3] == 'p'
        && t[i + 4] == 's' && t[i + 5] == ':' && t[i + 6] == '/' && t[i + 7] == '/'
        && in_class_exec(t[i + 8], CharClass::UrlChar) {
        8
    } else if n - i > 7 && t[i] == 'h' && t[i + 1] == 't' && t[i + 2] == 't' && t[i + 3] == 'p'
        && t[i + 4] == ':' && t[i + 5] == '/' && t[i + 6] == '/'
        && in_class_exec(t[i + 7], CharClass::UrlChar) {
        7
    } else {
        0
    };
    if p == 0 {
        return 0;
    }
    let r = run_at(t, i + p, CharClass::UrlChar);
    proof {
        lemma_run_shift(t@, i as int, p as int, CharClass::UrlChar);
    }
    p + r
}

fn url_pass_chars(t: &Vec<char>) -> (r: Vec<char>)
    ensures
        r@ == url_pass(t@),
{
    let n = t.len();
    let mut out: Vec<char> = Vec::new();
    let mut i: usize = 0;
    assert(t@.subrange(0, n as int) =~= t@);
    assert(out@ + url_pass(t@) =~= url_pass(t@));
    while i < n
        invariant
            i <= n,
            n == t.len(),
            out@ + url_pass(t@.subrange(i as int, n as int)) == url_pass(t@),
        decreases n - i,
    {
        let ghost u = t@.subrange(i as int, n as int);
        let l = url_len_at(t, i);
        if l > 0 {
            out.push('U');
            out.push('R');
            out.push('L');
            out.push('、');
            proof {
                assert(u.subrange(l as int, u.len() as int) =~= t@.subrange(i + l, n as int));
            }
            i = i + l;
        } else {
            out.push(t[i]);
            proof {
                assert(u.subrange(1, u.len() as int) =~= t@.subrange(i + 1, n as int));
            }
            i = i + 1;
        }
    }
    assert(out@ =~= out@ + url_pass(t@.subrange(i as int, n as int)));
    out
}


/// Spoken in place of a message that holds only attachments.
pub open spec fn attachment_marker() -> Seq<char> {
    seq!['添', '付', 'フ', 'ァ', 'イ', 'ル']
}

/// Whether `t` is empty once surrounding white space is trimmed.
pub open spec fn blank(t: Seq<char>) -> bool {
    forall|i: int| 0 <= i < t.len() ==> white_space(#[trigger] t[i])
}

/// The attachment step: with attachments, a blank text becomes the attachment
/// marker and any other text gets the marker and a separator in front.
pub open spec fn attachment_step(t: Seq<char>, attachment_count: nat) -> Seq<char> {
    if attachment_count == 0 {
        t
    } else if blank(t) {
        attachment_marker()
    } else {
        attachment_marker() + seq!['、'] + t
    }
}

/// The speakable form of a chat message: mentions resolved, custom emoji
/// removed, URLs replaced, attachments announced.
pub open spec fn normalized(t: Seq<char>, ms: Seq<(u64, Seq<char>)>, attachment_count: nat) -> Seq<char> {
    attachment_step(url_pass(emoji_pass(mention_pass(t, ms))), attachment_count)
}

fn is_blank(t: &Vec<char>) -> (r: bool)
    ensures
        r == blank(t@),
{
    let mut i: usize = 0;
    while i < t.len()
        invariant
            i <= t.len(),
            forall|q: int| 0 <= q < i ==> white_space(#[trigger] t@[q]),
        decreases t.len() - i,
    {
        if !is_white_space(t[i]) {
            return false;
        }
        i += 1;
    }
    true
}

/// Turns a chat message into speakable text. `mentions` lists the users the
/// message mentions with the names to speak for them; `attachment_count` is
/// the number of files attached to the message.
pub fn format_voicevox_message(text: &str, mentions: &Vec<Mention>, attachment_count: usize) -> (r: String)
    ensures
        r@ == normalized(text@, mentions_view(mentions@), attachment_count as nat),
{
    let t = chars_of(text);
    let with_names = mention_pass_chars(&t, mentions);
    let without_emoji = emoji_pass_chars(&with_names);
    let spoken = url_pass_chars(&without_emoji);
    if attachment_count == 0 {
        return string_of(&spoken);
    }
    let mut out = vec!['添', '付', 'フ', 'ァ', 'イ', 'ル'];
    assert(out@ =~= attachment_marker());
    if !is_blank(&spoken) {
        out.push('、');
        push_all(&mut out, &spoken);
        assert(out@ =~= attachment_marker() + seq!['、'] + spoken@);
    }
    string_of(&out)
}


/// Whether no URL-shaped text starts anywhere in `t`.
pub open spec fn url_free(t: Seq<char>) -> bool {
    forall|j: int| 0 <= j < t.len() ==> url_len(#[trigger] t.subrange(j, t.len() as int)) == 0
}

proof fn lemma_url_len_bounds(t: Seq<char>)
    ensures
        0 <= url_len(t) <= t.len(),
        url_len(t) > 0 <==> url_scheme_len(t) > 0,
{
    lemma_run_bounds(t, url_scheme_len(t), CharClass::UrlChar);
}

/// Index of the first URL in `t` from `i` on, or `t.len()`.
spec fn first_url(t: Seq<char>, i: int) -> int
    decreases t.len() - i,
{
    if i < 0 || i >= t.len() {
        t.len() as int
    } else if url_len(t.subrange(i, t.len() as int)) > 0 {
        i
    } else {
        first_url(t, i + 1)
    }
}

proof fn lemma_first_url(t: Seq<char>, i: int)
    requires
        0 <= i <= t.len(),
    ensures
        i <= first_url(t, i) <= t.len(),
        first_url(t, i) < t.len() ==> url_len(t.subrange(first_url(t, i), t.len() as int)) > 0,
        forall|j: int| i <= j < first_url(t, i) ==> url_len(#[trigger] t.subrange(j, t.len() as int)) == 0,
    decreases t.len() - i,
{
    if i < t.len() {
        lemma_url_len_bounds(t.subrange(i, t.len() as int));
        if url_len(t.subrange(i, t.len() as int)) == 0 {
            lemma_first_url(t, i + 1);
        }
    }
}

/// Positions before the first URL are copied unchanged.
proof fn lemma_url_copy(t: Seq<char>, m: int)
    requires
        0 <= m <= t.len(),
        forall|j: int| 0 <= j < m ==> url_len(#[trigger] t.subrange(j, t.len() as int)) == 0,
    ensures
        url_pass(t) == t.subrange(0, m) + url_pass(t.subrange(m, t.len() as int)),
    decreases m,
{
    if m == 0 {
        assert(t.subrange(0, t.len() as int) =~= t);
        assert(t.subrange(0, 0) + url_pass(t) =~= url_pass(t));
    } else {
        let t1 = t.subrange(1, t.len() as int);
        assert(t.subrange(0, t.len() as int) =~= t);
        assert(url_len(t.subrange(0, t.len() as int)) == 0);
        assert forall|j: int| 0 <= j < m - 1 implies url_len(#[trigger] t1.subrange(j, t1.len() as int)) == 0 by {
            assert(t1.subrange(j, t1.len() as int) =~= t.subrange(j + 1, t.len() as int));
        }
        lemma_url_copy(t1, m - 1);
        assert(t1.subrange(m - 1, t1.len() as int) =~= t.subrange(m, t.len() as int));
        assert(t.subrange(0, m) =~= seq![t[0]] + t1.subrange(0, m - 1));
        assert(url_pass(t) == seq![t[0]] + url_pass(t1));
    }
}

/// A text with no URL in it is left unchanged by the URL step.
proof fn lemma_url_pass_identity(t: Seq<char>)
    requires
        url_free(t),
    ensures
        url_pass(t) == t,
{
    lemma_url_copy(t, t.len() as int);
    assert(t.subrange(0, t.len() as int) =~= t);
    assert(t.subrange(t.len() as int, t.len() as int) =~= Seq::<char>::empty());
}

proof fn lemma_scheme_transfer(o: Seq<char>, t: Seq<char>)
    requires
        url_scheme_len(o) > 0,
        t.len() > url_scheme_len(o),
        forall|k: int| 0 <= k < url_scheme_len(o) ==> o[k] == t[k],
        o[url_scheme_len(o)] == t[url_scheme_len(o)] || t[url_scheme_len(o)] == 'h',
    ensures
        url_scheme_len(t) > 0,
{
    reveal(url_char);
    let p = url_scheme_len(o);
    assert(o[0] == t[0] && o[1] == t[1] && o[2] == t[2] && o[3] == t[3] && o[4] == t[4]);
    assert(o[5] == t[5] && o[6] == t[6]);
    if p == 8 {
        assert(o[7] == t[7]);
    }
}

/// A text that does not start with a URL does not start with one after
/// the URL step either.
proof fn lemma_url_pass_start(t: Seq<char>)
    requires
        t.len() > 0,
        url_len(t) == 0,
    ensures
        url_scheme_len(url_pass(t)) == 0,
{
    let o = url_pass(t);
    lemma_url_len_bounds(t);
    if url_scheme_len(o) > 0 {
        let p = url_scheme_len(o);
        lemma_first_url(t, 0);
        let m = first_url(t, 0);
        lemma_url_copy(t, m);
        let rest = t.subrange(m, t.len() as int);
        let head = t.subrange(0, m);
        assert(o == head + url_pass(rest));
        assert(t.subrange(0, t.len() as int) =~= t);
        if m > p {
            assert forall|k: int| 0 <= k <= p implies o[k] == t[k] by {
                assert(o[k] == head[k]);
            }
            lemma_scheme_transfer(o, t);
        } else if m == t.len() {
            assert(rest.len() == 0);
            assert(o.len() == m);
        } else {
            lemma_url_len_bounds(rest);
            let tail = url_pass(rest.subrange(url_len(rest), rest.len() as int));
            assert(url_pass(rest) == url_marker() + tail);
            assert(o[m] == url_pass(rest)[0]);
            assert(o[m] == 'U');
            assert(m == p);
            assert forall|k: int| 0 <= k < p implies o[k] == t[k] by {
                assert(o[k] == head[k]);
            }
            assert(t[p] == rest[0]);
            lemma_scheme_transfer(o, t);
        }
    }
}

proof fn lemma_url_pass_free(t: Seq<char>)
    ensures
        url_free(url_pass(t)),
    decreases t.len(),
{
    let o = url_pass(t);
    if t.len() == 0 {
        return;
    }
    lemma_url_len_bounds(t);
    if url_len(t) > 0 {
        let l = url_len(t);
        let t1 = t.subrange(l, t.len() as int);
        lemma_url_pass_free(t1);
        let o1 = url_pass(t1);
        assert(o == url_marker() + o1);
        assert forall|j: int| 0 <= j < o.len() implies url_len(#[trigger] o.subrange(j, o.len() as int)) == 0 by {
            let x = o.subrange(j, o.len() as int);
            lemma_url_len_bounds(x);
            if j >= 4 {
                assert(x =~= o1.subrange(j - 4, o1.len() as int));
            } else {
                assert(x[0] == url_marker()[j]);
            }
        }
    } else {
        let t1 = t.subrange(1, t.len() as int);
        lemma_url_pass_free(t1);
        let o1 = url_pass(t1);
        assert(o == seq![t[0]] + o1);
        assert forall|j: int| 0 <= j < o.len() implies url_len(#[trigger] o.subrange(j, o.len() as int)) == 0 by {
            let x = o.subrange(j, o.len() as int);
            lemma_url_len_bounds(x);
            if j >= 1 {
                assert(x =~= o1.subrange(j - 1, o1.len() as int));
            } else {
                assert(x =~= o);
                lemma_url_pass_start(t);
            }
        }
    }
}

/// URL replacement leaves no URL-shaped text behind, and running it again
/// on its own output changes nothing: no marker is taken for a URL.
pub proof fn lemma_url_pass_leaves_no_url(t: Seq<char>)
    ensures
        url_free(url_pass(t)),
        url_pass(url_pass(t)) == url_pass(t),
{
    lemma_url_pass_free(t);
    lemma_url_pass_identity(url_pass(t));
}


/// The whole normalization leaves no URL-shaped text, and replacing URLs in
/// its output changes nothing.
pub proof fn lemma_normalized_has_no_url(t: Seq<char>, ms: Seq<(u64, Seq<char>)>, attachment_count: nat)
    ensures
        url_free(normalized(t, ms, attachment_count)),
        url_pass(normalized(t, ms, attachment_count)) == normalized(t, ms, attachment_count),
{
    let u = url_pass(emoji_pass(mention_pass(t, ms)));
    lemma_url_pass_free(emoji_pass(mention_pass(t, ms)));
    let o = normalized(t, ms, attachment_count);
    if attachment_count > 0 {
        let head = attachment_marker() + seq!['、'];
        assert forall|j: int| 0 <= j < o.len() implies url_len(#[trigger] o.subrange(j, o.len() as int)) == 0 by {
            let x = o.subrange(j, o.len() as int);
            lemma_url_len_bounds(x);
            if blank(u) {
                assert(x[0] == attachment_marker()[j]);
            } else if j < 7 {
                assert(o == head + u);
                assert(x[0] == head[j]);
            } else {
                assert(o == head + u);
                assert(x =~= u.subrange(j - 7, u.len() as int));
            }
        }
    }
    lemma_url_pass_identity(o);
}

/// The written form `<@id>` of a mention, or `<@!id>` when `bang`.
pub open spec fn mention_token(id: u64, bang: bool) -> Seq<char> {
    seq!['<', '@'] + (if bang { seq!['!'] } else { Seq::empty() }) + dec(id as nat) + seq!['>']
}

/// Whether no mention token of a listed user starts anywhere in `t`.
pub open spec fn mention_free(t: Seq<char>, ms: Seq<(u64, Seq<char>)>) -> bool {
    forall|j: int| 0 <= j < t.len() ==> mention_index(#[trigger] t.subrange(j, t.len() as int), ms, 0) == ms.len()
}

/// Whether user `id` is listed.
pub open spec fn listed(ms: Seq<(u64, Seq<char>)>, id: u64) -> bool {
    exists|k: int| 0 <= k < ms.len() && ms[k].0 == id
}

/// Index of the first entry for user `id` from `k` on.
pub open spec fn entry_of(ms: Seq<(u64, Seq<char>)>, id: u64, k: int) -> int
    decreases ms.len() - k,
{
    if k < 0 || k >= ms.len() {
        ms.len() as int
    } else if ms[k].0 == id {
        k
    } else {
        entry_of(ms, id, k + 1)
    }
}

/// `pieces[0] + seps[0] + pieces[1] + ... + seps[n - 1] + pieces[n]`.
pub open spec fn interleave(pieces: Seq<Seq<char>>, seps: Seq<Seq<char>>) -> Seq<char>
    decreases seps.len(),
{
    if seps.len() == 0 || pieces.len() == 0 {
        if pieces.len() == 0 { Seq::empty() } else { pieces[0] }
    } else {
        pieces[0] + seps[0] + interleave(pieces.subrange(1, pieces.len() as int), seps.subrange(1, seps.len() as int))
    }
}

pub open spec fn is_ascii_digit(c: char) -> bool {
    '0' <= c <= '9'
}

proof fn lemma_dec_digits(n: nat)
    ensures
        dec(n).len() >= 1,
        n >= 10 ==> dec(n).len() >= 2,
        forall|i: int| 0 <= i < dec(n).len() ==> is_ascii_digit(#[trigger] dec(n)[i]),
    decreases n,
{
    if n >= 10 {
        lemma_dec_digits(n / 10);
    }
}

proof fn lemma_digit_char_injective(a: int, b: int)
    requires
        0 <= a < 10,
        0 <= b < 10,
        digit_char(a) == digit_char(b),
    ensures
        a == b,
{
}

proof fn lemma_dec_injective(a: nat, b: nat)
    requires
        dec(a) == dec(b),
    ensures
        a == b,
    decreases a,
{
    lemma_dec_digits(a);
    lemma_dec_digits(b);
    if a < 10 && b < 10 {
        assert(dec(a)[0] == digit_char(a as int));
        assert(dec(b)[0] == digit_char(b as int));
        lemma_digit_char_injective(a as int, b as int);
    } else if a >= 10 && b >= 10 {
        let da = dec(a / 10);
        let db = dec(b / 10);
        assert(dec(a).last() == digit_char((a % 10) as int));
        assert(dec(b).last() == digit_char((b % 10) as int));
        lemma_digit_char_injective((a % 10) as int, (b % 10) as int);
        assert(da =~= dec(a).drop_last());
        assert(db =~= dec(b).drop_last());
        lemma_dec_injective(a / 10, b / 10);
    }
}

/// The token of user `id` starts `tok + rest`, and no other user's does.
proof fn lemma_token_len(id: u64, bang: bool, rest: Seq<char>, other: u64)
    ensures
        mention_len(mention_token(id, bang) + rest, other) == (if other == id {
            mention_token(id, bang).len() as int
        } else {
            0
        }),
{
    let tok = mention_token(id, bang);
    let t = tok + rest;
    let d = dec(id as nat);
    let e = dec(other as nat);
    lemma_dec_digits(id as nat);
    lemma_dec_digits(other as nat);
    let s: int = if bang { 3 } else { 2 };
    assert(t[0] == '<' && t[1] == '@');
    assert(t[2] == (if bang { '!' } else { d[0] }));
    assert(forall|i: int| 0 <= i < d.len() ==> t[s + i] == d[i]);
    assert(t[s + d.len()] == '>');
    if other == id {
        assert(t.subrange(s, s + d.len()) =~= d);
    } else if t.len() >= s + e.len() + 1 && t.subrange(s, s + e.len()) == e && t[s + e.len()] == '>' {
        if e.len() < d.len() {
            assert(t[s + e.len()] == d[e.len() as int]);
        } else if e.len() > d.len() {
            assert(t.subrange(s, s + e.len())[d.len() as int] == t[s + d.len()]);
        } else {
            assert(e =~= d);
            lemma_dec_injective(id as nat, other as nat);
        }
    }
}

proof fn lemma_entry_of(ms: Seq<(u64, Seq<char>)>, id: u64, k: int)
    requires
        0 <= k <= ms.len(),
    ensures
        k <= entry_of(ms, id, k) <= ms.len(),
        entry_of(ms, id, k) < ms.len() ==> ms[entry_of(ms, id, k)].0 == id,
        forall|j: int| k <= j < entry_of(ms, id, k) ==> (#[trigger] ms[j]).0 != id,
    decreases ms.len() - k,
{
    if k < ms.len() && ms[k].0 != id {
        lemma_entry_of(ms, id, k + 1);
    }
}

/// A mention token of a listed user is spoken as that user's first entry.
proof fn lemma_token_pass(id: u64, bang: bool, rest: Seq<char>, ms: Seq<(u64, Seq<char>)>)
    requires
        listed(ms, id),
    ensures
        mention_pass(mention_token(id, bang) + rest, ms)
            == mention_text(ms[entry_of(ms, id, 0)].1) + mention_pass(rest, ms),
{
    let tok = mention_token(id, bang);
    let t = tok + rest;
    let k = entry_of(ms, id, 0);
    lemma_entry_of(ms, id, 0);
    let w = choose|w: int| 0 <= w < ms.len() && ms[w].0 == id;
    assert(k <= w);
    assert forall|j: int| 0 <= j < k implies mention_len(t, #[trigger] ms[j].0) == 0 by {
        lemma_token_len(id, bang, rest, ms[j].0);
    }
    lemma_token_len(id, bang, rest, ms[k].0);
    lemma_mention_index_is(t, ms, k);
    assert(t.subrange(tok.len() as int, t.len() as int) =~= rest);
}

proof fn lemma_no_token_index(t: Seq<char>, ms: Seq<(u64, Seq<char>)>)
    requires
        forall|k: int| 0 <= k < ms.len() ==> mention_len(t, #[trigger] ms[k].0) == 0,
    ensures
        mention_index(t, ms, 0) == ms.len(),
{
    lemma_mention_index_is(t, ms, ms.len() as int);
}

/// A token that starts `a + x`, where `x` is empty or starts with `<`, lies
/// within `a`.
proof fn lemma_token_within(a: Seq<char>, x: Seq<char>, id: u64)
    requires
        a.len() > 0,
        x.len() == 0 || x[0] == '<',
    ensures
        mention_len(a + x, id) > 0 ==> mention_len(a, id) == mention_len(a + x, id),
{
    let t = a + x;
    let l = mention_len(t, id);
    let d = dec(id as nat);
    lemma_dec_digits(id as nat);
    if l > 0 {
        let s: int = if t.len() > 2 && t[2] == '!' { 3 } else { 2 };
        if l > a.len() {
            let q = a.len() as int;
            assert(1 <= q < l);
            assert(t[q] == '<');
            if q < s {
                assert(q == 1 || q == 2);
            } else if q < s + d.len() {
                assert(t.subrange(s, s + d.len())[q - s] == t[q]);
                assert(is_ascii_digit(d[q - s]));
            } else {
                assert(q == s + d.len());
            }
        } else {
            assert(a.subrange(s, s + d.len()) =~= t.subrange(s, s + d.len()));
            assert(a.len() > 2 ==> a[2] == t[2]);
        }
    }
}

/// Text free of tokens is copied unchanged before a token or the end.
proof fn lemma_mention_copy(a: Seq<char>, x: Seq<char>, ms: Seq<(u64, Seq<char>)>)
    requires
        mention_free(a, ms),
        x.len() == 0 || x[0] == '<',
    ensures
        mention_pass(a + x, ms) == a + mention_pass(x, ms),
    decreases a.len(),
{
    if a.len() == 0 {
        assert(a + x =~= x);
        assert(a + mention_pass(x, ms) =~= mention_pass(x, ms));
    } else {
        let t = a + x;
        assert(a.subrange(0, a.len() as int) =~= a);
        assert(mention_index(a, ms, 0) == ms.len());
        assert forall|k: int| 0 <= k < ms.len() implies mention_len(t, #[trigger] ms[k].0) == 0 by {
            lemma_token_within(a, x, ms[k].0);
            lemma_mention_index_bounds(a, ms, 0);
            if mention_len(t, ms[k].0) > 0 {
                assert(mention_len(a, ms[k].0) > 0);
                assert(false);
            }
        }
        lemma_no_token_index(t, ms);
        let a1 = a.subrange(1, a.len() as int);
        assert forall|j: int| 0 <= j < a1.len() implies mention_index(#[trigger] a1.subrange(j, a1.len() as int), ms, 0) == ms.len() by {
            assert(a1.subrange(j, a1.len() as int) =~= a.subrange(j + 1, a.len() as int));
        }
        lemma_mention_copy(a1, x, ms);
        assert(t.subrange(1, t.len() as int) =~= a1 + x);
        assert(a =~= seq![a[0]] + a1);
    }
}


/// The written mention tokens for `tokens` (user id, whether written `<@!`).
pub open spec fn written_tokens(tokens: Seq<(u64, bool)>) -> Seq<Seq<char>> {
    Seq::new(tokens.len(), |j: int| mention_token(tokens[j].0, tokens[j].1))
}

/// What the mentions `tokens` are spoken as.
pub open spec fn spoken_tokens(tokens: Seq<(u64, bool)>, ms: Seq<(u64, Seq<char>)>) -> Seq<Seq<char>> {
    Seq::new(tokens.len(), |j: int| mention_text(ms[entry_of(ms, tokens[j].0, 0)].1))
}

/// A text made of `k` mention tokens of listed users between pieces that hold
/// no such token comes out of the mention step as the same pieces with exactly
/// `k` mention markers in place of the tokens, each immediately followed by
/// the user's display name and the separator.
pub proof fn lemma_mentions_spoken(pieces: Seq<Seq<char>>, tokens: Seq<(u64, bool)>, ms: Seq<(u64, Seq<char>)>)
    requires
        pieces.len() == tokens.len() + 1,
        forall|j: int| 0 <= j < pieces.len() ==> mention_free(#[trigger] pieces[j], ms),
        forall|j: int| 0 <= j < tokens.len() ==> listed(ms, (#[trigger] tokens[j]).0),
    ensures
        mention_pass(interleave(pieces, written_tokens(tokens)), ms)
            == interleave(pieces, spoken_tokens(tokens, ms)),
    decreases tokens.len(),
{
    let w = written_tokens(tokens);
    let sp = spoken_tokens(tokens, ms);
    assert(mention_free(pieces[0], ms));
    if tokens.len() == 0 {
        lemma_mention_copy(pieces[0], Seq::empty(), ms);
        assert(pieces[0] + Seq::<char>::empty() =~= pieces[0]);
        assert(mention_pass(Seq::<char>::empty(), ms) =~= Seq::<char>::empty());
    } else {
        let p1 = pieces.subrange(1, pieces.len() as int);
        let t1 = tokens.subrange(1, tokens.len() as int);
        assert forall|j: int| 0 <= j < p1.len() implies mention_free(#[trigger] p1[j], ms) by {
            assert(p1[j] == pieces[j + 1]);
        }
        assert forall|j: int| 0 <= j < t1.len() implies listed(ms, (#[trigger] t1[j]).0) by {
            assert(t1[j] == tokens[j + 1]);
        }
        lemma_mentions_spoken(p1, t1, ms);
        assert(w.subrange(1, w.len() as int) =~= written_tokens(t1));
        assert(sp.subrange(1, sp.len() as int) =~= spoken_tokens(t1, ms));
        let rest_w = interleave(p1, written_tokens(t1));
        let tok = mention_token(tokens[0].0, tokens[0].1);
        assert(interleave(pieces, w) == pieces[0] + tok + rest_w);
        assert(pieces[0] + tok + rest_w =~= pieces[0] + (tok + rest_w));
        lemma_mention_copy(pieces[0], tok + rest_w, ms);
        assert(listed(ms, tokens[0].0));
        lemma_token_pass(tokens[0].0, tokens[0].1, rest_w, ms);
        assert(interleave(pieces, sp) == pieces[0] + sp[0] + interleave(p1, spoken_tokens(t1, ms)));
        assert(pieces[0] + (sp[0] + interleave(p1, spoken_tokens(t1, ms)))
            =~= pieces[0] + sp[0] + interleave(p1, spoken_tokens(t1, ms)));
    }
}


/// Normalization speaks the `k` mention tokens as the mention step does (each
/// as the marker, the display name and the separator) before it removes
/// custom emoji, replaces URLs and announces attachments.
pub proof fn lemma_normalized_mentions(
    pieces: Seq<Seq<char>>,
    tokens: Seq<(u64, bool)>,
    ms: Seq<(u64, Seq<char>)>,
    attachment_count: nat,
)
    requires
        pieces.len() == tokens.len() + 1,
        forall|j: int| 0 <= j < pieces.len() ==> mention_free(#[trigger] pieces[j], ms),
        forall|j: int| 0 <= j < tokens.len() ==> listed(ms, (#[trigger] tokens[j]).0),
    ensures
        normalized(interleave(pieces, written_tokens(tokens)), ms, attachment_count)
            == attachment_step(url_pass(emoji_pass(interleave(pieces, spoken_tokens(tokens, ms)))), attachment_count),
{
    lemma_mentions_spoken(pieces, tokens, ms);
}

} // verus!
