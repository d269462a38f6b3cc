use vstd::prelude::*;

use crate::source::{PToken, TokenData, TokenKind};

verus! {

/// Unicode `White_Space`: U+0009..=U+000D, U+0020, U+0085, U+00A0, U+1680,
/// U+2000..=U+200A, U+2028, U+2029, U+202F, U+205F and U+3000.
pub open spec fn white_space(c: char) -> bool {
    let u = c as u32;
    (0x9 <= u && u <= 0xd) || u == 0x20 || u == 0x85 || u == 0xa0 || u == 0x1680 || (0x2000 <= u
        && u <= 0x200a) || u == 0x2028 || u == 0x2029 || u == 0x202f || u == 0x205f || u == 0x3000
}

/// Whether the character has the Unicode `White_Space` property, as
/// `char::is_whitespace` answers.
fn char_is_whitespace(c: char) -> (r: bool)
    ensures
        r == white_space(c),
{
    let u = c as u32;
    (0x9 <= u && u <= 0xd) || u == 0x20 || u == 0x85 || u == 0xa0 || u == 0x1680 || (0x2000 <= u
        && u <= 0x200a) || u == 0x2028 || u == 0x2029 || u == 0x202f || u == 0x205f || u == 0x3000
}

/// General category `Cc`: U+0000..=U+001F and U+007F..=U+009F.
pub open spec fn control_char(c: char) -> bool {
    (c as u32) <= 0x1f || (0x7f <= (c as u32) && (c as u32) <= 0x9f)
}

/// The ASCII punctuation characters: `!`..=`/`, `:`..=`@`, `[`..=`` ` ``, `{`..=`~`.
pub open spec fn ascii_punct(c: char) -> bool {
    (0x21 <= (c as u32) && (c as u32) <= 0x2f) || (0x3a <= (c as u32) && (c as u32) <= 0x40)
        || (0x5b <= (c as u32) && (c as u32) <= 0x60) || (0x7b <= (c as u32) && (c as u32)
        <= 0x7e)
}

pub open spec fn ornament_char(c: char) -> bool {
    control_char(c) || white_space(c) || ascii_punct(c)
}

/// A decorative line (`// ----`, a blank line): nothing but control characters,
/// white space and punctuation.
pub open spec fn ornament_line(s: Seq<char>) -> bool {
    forall|i: int| 0 <= i < s.len() ==> ornament_char(#[trigger] s[i])
}

pub fn char_is_ornament_comment(c: char) -> (r: bool)
    ensures
        r == ornament_char(c),
{
    let u = c as u32;
    let control = u <= 0x1f || (0x7f <= u && u <= 0x9f);
    let punct = (0x21 <= u && u <= 0x2f) || (0x3a <= u && u <= 0x40) || (0x5b <= u && u <= 0x60)
        || (0x7b <= u && u <= 0x7e);
    control || char_is_whitespace(c) || punct
}

pub fn str_is_ornament_comment(s: &str) -> (r: bool)
    ensures
        r == ornament_line(s@),
{
    let n = s.unicode_len();
    let mut i: usize = 0;
    while i < n
        invariant
            n == s@.len(),
            i <= n,
            forall|j: int| 0 <= j < i ==> ornament_char(#[trigger] s@[j]),
        decreases n - i,
    {
        if !char_is_ornament_comment(s.get_char(i)) {
            return false;
        }
        i += 1;
    }
    true
}

pub open spec fn has_prefix(s: Seq<char>, p: Seq<char>) -> bool {
    p.len() <= s.len() && s.subrange(0, p.len() as int) == p
}

/// Length of the comment marker that opens the line, tried in this order:
/// `"/// "`, `"///"`, `"// "`, `"//"`, `"; "`, `";"`.
pub open spec fn leader_len(s: Seq<char>) -> int {
    if has_prefix(s, seq!['/', '/', '/', ' ']) {
        4
    } else if has_prefix(s, seq!['/', '/', '/']) {
        3
    } else if has_prefix(s, seq!['/', '/', ' ']) {
        3
    } else if has_prefix(s, seq!['/', '/']) {
        2
    } else if has_prefix(s, seq![';', ' ']) {
        2
    } else if has_prefix(s, seq![';']) {
        1
    } else {
        0
    }
}

pub open spec fn trim_leader(s: Seq<char>) -> Seq<char> {
    s.subrange(leader_len(s), s.len() as int)
}

/// The line without the white space at its end.
pub open spec fn trim_end(s: Seq<char>) -> Seq<char>
    decreases s.len(),
{
    if s.len() > 0 && white_space(s.last()) {
        trim_end(s.drop_last())
    } else {
        s
    }
}

fn starts_with_chars(s: &str, p: &Vec<char>) -> (r: bool)
    ensures
        r == has_prefix(s@, p@),
{
    let n = s.unicode_len();
    let m = p.len();
    if m > n {
        return false;
    }
    let mut i: usize = 0;
    while i < m
        invariant
            n == s@.len(),
            m == p@.len(),
            m <= n,
            i <= m,
            forall|j: int| 0 <= j < i ==> s@[j] == p@[j],
        decreases m - i,
    {
        if s.get_char(i) != p[i] {
            assert(s@.subrange(0, m as int)[i as int] != p@[i as int]);
            return false;
        }
        i += 1;
    }
    assert(s@.subrange(0, m as int) =~= p@);
    true
}

pub fn trim_comment_leader(s: &str) -> (r: String)
    ensures
        r@ == trim_leader(s@),
{
    let prefixes: Vec<Vec<char>> = vec![
        vec!['/', '/', '/', ' '],
        vec!['/', '/', '/'],
        vec!['/', '/', ' '],
        vec!['/', '/'],
        vec![';', ' '],
        vec![';'],
    ];
    assert(prefixes@[0]@ == seq!['/', '/', '/', ' ']);
    assert(prefixes@[1]@ == seq!['/', '/', '/']);
    assert(prefixes@[2]@ == seq!['/', '/', ' ']);
    assert(prefixes@[3]@ == seq!['/', '/']);
    assert(prefixes@[4]@ == seq![';', ' ']);
    assert(prefixes@[5]@ == seq![';']);
    let n = s.unicode_len();
    let mut k: usize = 0;
    while k < prefixes.len()
        invariant
            n == s@.len(),
            prefixes@.len() == 6,
            prefixes@[0]@ == seq!['/', '/', '/', ' '],
            prefixes@[1]@ == seq!['/', '/', '/'],
            prefixes@[2]@ == seq!['/', '/', ' '],
            prefixes@[3]@ == seq!['/', '/'],
            prefixes@[4]@ == seq![';', ' '],
            prefixes@[5]@ == seq![';'],
            k <= 6,
            forall|j: int| 0 <= j < k ==> !has_prefix(s@, #[trigger] prefixes@[j]@),
        decreases 6 - k,
    {
        if starts_with_chars(s, &prefixes[k]) {
            let m = prefixes[k].len();
            assert(leader_len(s@) == m);
            return s.substring_char(m, n).to_owned();
        }
        k += 1;
    }
    assert(!has_prefix(s@, prefixes@[0]@));
    assert(!has_prefix(s@, prefixes@[1]@));
    assert(!has_prefix(s@, prefixes@[2]@));
    assert(!has_prefix(s@, prefixes@[3]@));
    assert(!has_prefix(s@, prefixes@[4]@));
    assert(!has_prefix(s@, prefixes@[5]@));
    assert(s@.subrange(0, n as int) =~= s@);
    s.to_owned()
}

fn trim_end_string(s: &str) -> (r: String)
    ensures
        r@ == trim_end(s@),
{
    let mut n = s.unicode_len();
    assert(s@.subrange(0, n as int) =~= s@);
    while n > 0 && char_is_whitespace(s.get_char(n - 1))
        invariant
            n <= s@.len(),
            trim_end(s@.subrange(0, n as int)) == trim_end(s@),
        decreases n,
    {
        assert(s@.subrange(0, n as int).drop_last() =~= s@.subrange(0, n - 1));
        n -= 1;
    }
    s.substring_char(0, n).to_owned()
}


/// One-line summary and documentation body taken from a declaration's comments.
pub struct SymbolDetails {
    pub desc: Option<String>,
    pub docs: Vec<String>,
}

pub open spec fn lines_view(v: Seq<String>) -> Seq<Seq<char>> {
    v.map_values(|s: String| s@)
}

/// Index of the first line at or after `i` that is not decorative, or the number
/// of lines where there is none.
pub open spec fn first_substantive(c: Seq<Seq<char>>, i: int) -> int
    decreases c.len() - i,
{
    if i >= c.len() {
        c.len() as int
    } else if !ornament_line(c[i]) {
        i
    } else {
        first_substantive(c, i + 1)
    }
}

pub open spec fn details_desc(c: Seq<Seq<char>>) -> Option<Seq<char>> {
    let f = first_substantive(c, 0);
    if f < c.len() {
        Some(trim_leader(c[f]))
    } else {
        None
    }
}

/// Where the documentation body starts: after the summary line and the decorative
/// lines right behind it.
pub open spec fn docs_start(c: Seq<Seq<char>>) -> int {
    let f = first_substantive(c, 0);
    if f < c.len() {
        first_substantive(c, f + 1)
    } else {
        c.len() as int
    }
}

pub open spec fn doc_line(s: Seq<char>) -> Seq<char> {
    trim_end(trim_leader(s))
}

pub open spec fn details_docs(c: Seq<Seq<char>>) -> Seq<Seq<char>> {
    c.subrange(docs_start(c), c.len() as int).map_values(|l: Seq<char>| doc_line(l))
}

pub proof fn lemma_first_substantive_bounds(c: Seq<Seq<char>>, i: int)
    requires
        0 <= i,
    ensures
        i <= c.len() ==> i <= first_substantive(c, i),
        first_substantive(c, i) <= c.len(),
        first_substantive(c, i) < c.len() ==> !ornament_line(c[first_substantive(c, i)]),
        forall|j: int| i <= j < first_substantive(c, i) ==> ornament_line(#[trigger] c[j]),
    decreases c.len() - i,
{
    if i < c.len() && ornament_line(c[i]) {
        lemma_first_substantive_bounds(c, i + 1);
    }
}

fn find_substantive(comments: &Vec<String>, from: usize) -> (r: usize)
    requires
        from <= comments@.len(),
    ensures
        r == first_substantive(lines_view(comments@), from as int),
{
    let ghost c = lines_view(comments@);
    let mut i = from;
    while i < comments.len()
        invariant
            from <= i <= comments@.len(),
            c == lines_view(comments@),
            first_substantive(c, i as int) == first_substantive(c, from as int),
        decreases comments@.len() - i,
    {
        if !str_is_ornament_comment(comments[i].as_str()) {
            return i;
        }
        i += 1;
    }
    i
}

/// Splits the comments before a declaration into a summary and a body. Decorative
/// lines before the summary and right behind it are skipped; the summary loses its
/// comment marker, each body line its marker and trailing white space.
pub fn calculate_details(comments: &Vec<String>) -> (r: SymbolDetails)
    ensures
        r.desc is Some <==> details_desc(lines_view(comments@)) is Some,
        r.desc is Some ==> r.desc->0@ == details_desc(lines_view(comments@))->0,
        lines_view(r.docs@) == details_docs(lines_view(comments@)),
{
    let ghost c = lines_view(comments@);
    let n = comments.len();
    let f = find_substantive(comments, 0);
    proof {
        lemma_first_substantive_bounds(c, 0);
    }
    let mut desc: Option<String> = None;
    let mut y = n;
    if f < n {
        desc = Some(trim_comment_leader(comments[f].as_str()));
        y = find_substantive(comments, f + 1);
        proof {
            lemma_first_substantive_bounds(c, f + 1);
        }
    }
    assert(y == docs_start(c));
    let mut docs: Vec<String> = Vec::new();
    let mut i = y;
    while i < n
        invariant
            y <= i <= n,
            n == comments@.len(),
            c == lines_view(comments@),
            y == docs_start(c),
            lines_view(docs@) == c.subrange(y as int, i as int).map_values(
                |l: Seq<char>| doc_line(l),
            ),
        decreases n - i,
    {
        let lead = trim_comment_leader(comments[i].as_str());
        let line = trim_end_string(lead.as_str());
        assert(c[i as int] == comments@[i as int]@);
        assert(line@ == doc_line(c[i as int]));
        let ghost prev = docs@;
        docs.push(line);
        assert(lines_view(docs@) =~= lines_view(prev).push(line@));
        assert(c.subrange(y as int, i + 1).map_values(|l: Seq<char>| doc_line(l)) =~= c.subrange(
            y as int,
            i as int,
        ).map_values(|l: Seq<char>| doc_line(l)).push(doc_line(c[i as int])));
        i += 1;
    }
    SymbolDetails { desc, docs }
}

/// A block made only of decorative lines yields neither a summary nor a body.
pub proof fn lemma_ornament_only_yields_nothing(c: Seq<Seq<char>>)
    requires
        forall|i: int| 0 <= i < c.len() ==> ornament_line(#[trigger] c[i]),
    ensures
        details_desc(c) is None,
        details_docs(c) == Seq::<Seq<char>>::empty(),
{
    lemma_first_substantive_bounds(c, 0);
    assert(details_docs(c) =~= Seq::<Seq<char>>::empty());
}

/// The texts of the comments among the trivia that are not decorative, in order.
pub open spec fn comment_texts(ts: Seq<TokenData>) -> Seq<Seq<char>>
    decreases ts.len(),
{
    if ts.len() == 0 {
        Seq::empty()
    } else {
        let rest = comment_texts(ts.drop_last());
        let t = ts.last();
        if t.kind == TokenKind::Comment && !ornament_line(t.text@) {
            rest.push(t.text@)
        } else {
            rest
        }
    }
}

pub fn collect_comments(leader: &PToken) -> (r: Vec<String>)
    ensures
        lines_view(r@) == comment_texts(leader.leading@),
{
    let ts = &leader.leading;
    let mut out: Vec<String> = Vec::new();
    let mut i: usize = 0;
    while i < ts.len()
        invariant
            i <= ts@.len(),
            lines_view(out@) == comment_texts(ts@.subrange(0, i as int)),
        decreases ts@.len() - i,
    {
        let t = &ts[i];
        assert(ts@.subrange(0, i + 1).drop_last() =~= ts@.subrange(0, i as int));
        if t.kind == TokenKind::Comment && !str_is_ornament_comment(t.text.as_str()) {
            out.push(t.text.clone());
            assert(lines_view(out@) =~= comment_texts(ts@.subrange(0, i as int)).push(t.text@));
        }
        i += 1;
    }
    assert(ts@.subrange(0, ts@.len() as int) =~= ts@);
    out
}

} // verus!
