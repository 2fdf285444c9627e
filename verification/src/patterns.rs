//! Regular expressions.
use crate::models::opt_text;
use crate::text::{is_space, lemma_indent_told, starts_with_of, trim_start_of};
use vstd::prelude::*;
use vstd::string::*;

verus! {

/// A line that belongs to a file's header.
pub const HEADER_PATTERN: &'static str = r"^(import|open|set_option|universe|variable)\s";

/// A line that begins a declaration; its name is the second group.
pub const DECLARATION_PATTERN: &'static str =
    r"^\s*(?:private\s+)?(theorem|lemma|def)\s+(\S+)";

/// A line of a build's output that speaks of a file; the file is the first
/// group.
pub const BUILD_PATTERN: &'static str =
    r"(?im)^(?:error|warning):\s*([^\s:]+\.lean):\d+:\d+:";

/// All matches of a regular expression in a text, one after the other, each
/// with its groups, the whole match first. There are none where the pattern is
/// no regular expression.
pub uninterp spec fn regex_matches(pattern: Seq<char>, text: Seq<char>) -> Seq<
    Seq<Option<Seq<char>>>,
>;

/// The texts of some matches.
pub open spec fn match_texts(ms: Seq<Vec<Option<String>>>) -> Seq<Seq<Option<Seq<char>>>> {
    ms.map_values(|m: Vec<Option<String>>| m@.map_values(|g: Option<String>| opt_text(g)))
}

/// Whether `s` begins with `word` and white space after it.
pub open spec fn word_first(s: Seq<char>, word: Seq<char>) -> bool {
    starts_with_of(s, word) && s.len() > word.len() && is_space(s[word.len() as int])
}

/// Whether a line belongs to a file's header.
pub open spec fn header_of(s: Seq<char>) -> bool {
    ||| word_first(s, "import"@)
    ||| word_first(s, "open"@)
    ||| word_first(s, "set_option"@)
    ||| word_first(s, "universe"@)
    ||| word_first(s, "variable"@)
}

/// What `s` begins with up to its first white space.
pub open spec fn first_word(s: Seq<char>) -> Seq<char>
    decreases s.len(),
{
    if s.len() == 0 || is_space(s[0]) {
        Seq::empty()
    } else {
        seq![s[0]] + first_word(s.skip(1))
    }
}

/// What follows `word` and the white space after it, where `s` begins so and
/// where there is anything.
pub open spec fn behind_word(s: Seq<char>, word: Seq<char>) -> Option<Seq<char>> {
    if word_first(s, word) && trim_start_of(s.skip(word.len() as int)).len() > 0 {
        Some(trim_start_of(s.skip(word.len() as int)))
    } else {
        None
    }
}

/// The name that a line declares, where it begins a declaration: `theorem`,
/// `lemma` or `def`, perhaps behind `private`, and then the name.
pub open spec fn declared_name(line: Seq<char>) -> Option<Seq<char>> {
    let s = trim_start_of(line);
    let t = match behind_word(s, "private"@) {
        Some(t) => t,
        None => s,
    };
    match (behind_word(t, "theorem"@), behind_word(t, "lemma"@), behind_word(t, "def"@)) {
        (Some(u), _, _) => Some(first_word(u)),
        (_, Some(u), _) => Some(first_word(u)),
        (_, _, Some(u)) => Some(first_word(u)),
        _ => None,
    }
}

/// The second group of the first of some matches.
pub open spec fn second_group(ms: Seq<Seq<Option<Seq<char>>>>) -> Option<Seq<char>> {
    if ms.len() > 0 && ms[0].len() > 2 {
        ms[0][2]
    } else {
        None
    }
}

/// Whether the first group takes part in each of some matches.
pub open spec fn first_groups_there(ms: Seq<Seq<Option<Seq<char>>>>) -> bool {
    forall|i: int| 0 <= i < ms.len() ==> (#[trigger] ms[i]).len() > 1 && ms[i][1] is Some
}

/// `regex::Regex::new` and `regex::Regex::captures_iter`: all matches of a
/// pattern in a text with their groups are a function of the two, and there are
/// none where the pattern does not compile. Of [`HEADER_PATTERN`] and
/// [`DECLARATION_PATTERN`] is stated what their matches are: a header line
/// begins with one of the words and white space; the other pattern matches
/// exactly the lines that declare a name, and its second group is that name. Of
/// [`BUILD_PATTERN`] is stated that its first group, which is in no alternative and
/// not repeated, takes part in every match.
#[verifier::external_body]
pub(crate) fn all_matches(pattern: &str, text: &str) -> (r: Vec<Vec<Option<String>>>)
    ensures
        match_texts(r@) == regex_matches(pattern@, text@),
        pattern@ == HEADER_PATTERN@ ==> (r@.len() > 0) == header_of(text@),
        pattern@ == DECLARATION_PATTERN@ ==> second_group(match_texts(r@)) == declared_name(text@),
        pattern@ == DECLARATION_PATTERN@ ==> (r@.len() > 0) == (declared_name(text@) is Some),
        pattern@ == BUILD_PATTERN@ ==> first_groups_there(match_texts(r@)),
{
    match regex::Regex::new(pattern) {
        Ok(re) => re.captures_iter(text).map(
            |c| c.iter().map(|g| g.map(|m| m.as_str().to_owned())).collect(),
        ).collect(),
        Err(_) => Vec::new(),
    }
}

/// Whether a character means something in a regular expression.
pub open spec fn is_meta(c: char) -> bool {
    seq![
        '\\',
        '.',
        '+',
        '*',
        '?',
        '(',
        ')',
        '|',
        '[',
        ']',
        '{',
        '}',
        '^',
        '$',
        '#',
        '&',
        '-',
        '~',
    ].contains(c)
}

/// A text with a backslash before each character that means something in a
/// regular expression.
pub open spec fn escaped(s: Seq<char>) -> Seq<char>
    decreases s.len(),
{
    if s.len() == 0 {
        s
    } else if is_meta(s.last()) {
        escaped(s.drop_last()).push('\\').push(s.last())
    } else {
        escaped(s.drop_last()).push(s.last())
    }
}

/// `regex::escape`: a backslash before each character that means something in a
/// regular expression.
#[verifier::external_body]
pub(crate) fn escape(s: &str) -> (r: String)
    ensures
        r@ == escaped(s@),
{
    regex::escape(s)
}

/// Whether a pattern matches a text.
pub open spec fn is_match_of(pattern: Seq<char>, text: Seq<char>) -> bool {
    regex_matches(pattern, text).len() > 0
}

/// A group of a match.
pub open spec fn group_of(m: Seq<Option<Seq<char>>>, i: int) -> Option<Seq<char>> {
    if 0 <= i < m.len() {
        m[i]
    } else {
        None
    }
}

/// A group of the first match of a pattern in a text.
pub open spec fn first_group(pattern: Seq<char>, text: Seq<char>, i: int) -> Option<Seq<char>> {
    if is_match_of(pattern, text) {
        group_of(regex_matches(pattern, text)[0], i)
    } else {
        None
    }
}

/// Whether a pattern matches a text.
pub fn is_match(pattern: &str, text: &str) -> (r: bool)
    ensures
        r == is_match_of(pattern@, text@),
        pattern@ == HEADER_PATTERN@ ==> r == header_of(text@),
        pattern@ == DECLARATION_PATTERN@ ==> r == (declared_name(text@) is Some),
{
    all_matches(pattern, text).len() > 0
}

/// A group of a match.
pub fn group(m: &[Option<String>], i: usize) -> (r: Option<String>)
    ensures
        opt_text(r) == group_of(m@.map_values(|g: Option<String>| opt_text(g)), i as int),
{
    if i < m.len() {
        match &m[i] {
            Some(s) => Some(s.clone()),
            None => None,
        }
    } else {
        None
    }
}

/// A group of the first match of a pattern in a text.
pub fn find_group(pattern: &str, text: &str, i: usize) -> (r: Option<String>)
    ensures
        opt_text(r) == first_group(pattern@, text@, i as int),
        pattern@ == DECLARATION_PATTERN@ && i == 2 ==> opt_text(r) == declared_name(text@),
{
    let ms = all_matches(pattern, text);
    proof {
        assert(match_texts(ms@).len() == ms@.len());
    }
    if ms.len() > 0 {
        proof {
            assert(match_texts(ms@)[0] == ms@[0]@.map_values(|g: Option<String>| opt_text(g)));
        }
        group(&ms[0], i)
    } else {
        None
    }
}

/// Whether a line belongs to a file's header.
pub fn is_header_line(line: &str) -> (r: bool)
    ensures
        r == header_of(line@),
{
    is_match(HEADER_PATTERN, line)
}

/// A text is escaped piece by piece.
pub proof fn lemma_escaped_together(a: Seq<char>, b: Seq<char>)
    ensures
        escaped(a + b) == escaped(a) + escaped(b),
    decreases b.len(),
{
    if b.len() == 0 {
        assert(a + b =~= a);
        assert(escaped(a) + escaped(b) =~= escaped(a));
    } else {
        lemma_escaped_together(a, b.drop_last());
        assert((a + b).drop_last() =~= a + b.drop_last());
        assert((a + b).last() == b.last());
        assert(escaped(a + b) =~= escaped(a) + escaped(b));
    }
}

/// A backslash is put before a character that means something in a regular expression, and
/// before no other: no letter, digit or underscore is one of these.
pub proof fn lemma_escaped_char(c: char)
    ensures
        is_meta(c) ==> escaped(seq![c]) == seq!['\\', c],
        !is_meta(c) ==> escaped(seq![c]) == seq![c],
        is_meta(c) <==> c == '\\' || c == '.' || c == '+' || c == '*' || c == '?' || c == '(' || c
            == ')' || c == '|' || c == '[' || c == ']' || c == '{' || c == '}' || c == '^' || c
            == '$' || c == '#' || c == '&' || c == '-' || c == '~',
{
    reveal_with_fuel(escaped, 2);
    assert(seq![c].drop_last() =~= Seq::empty());
    assert(escaped(seq![c].drop_last()) =~= Seq::empty());
    let m = seq![
        '\\',
        '.',
        '+',
        '*',
        '?',
        '(',
        ')',
        '|',
        '[',
        ']',
        '{',
        '}',
        '^',
        '$',
        '#',
        '&',
        '-',
        '~',
    ];
    assert(m[0] == '\\' && m[1] == '.' && m[2] == '+' && m[3] == '*' && m[4] == '?');
    assert(m[5] == '(' && m[6] == ')' && m[7] == '|' && m[8] == '[' && m[9] == ']');
    assert(m[10] == '{' && m[11] == '}' && m[12] == '^' && m[13] == '$' && m[14] == '#');
    assert(m[15] == '&' && m[16] == '-' && m[17] == '~');
}

/// Whether a text is white space and not empty.
pub open spec fn is_gap(s: Seq<char>) -> bool {
    s.len() > 0 && forall|i: int| 0 <= i < s.len() ==> is_space(#[trigger] s[i])
}

/// A word up to the white space behind it is the first word.
proof fn lemma_first_word(name: Seq<char>, rest: Seq<char>)
    requires
        forall|i: int| 0 <= i < name.len() ==> !is_space(#[trigger] name[i]),
        rest.len() > 0 ==> is_space(rest[0]),
    ensures
        first_word(name + rest) == name,
    decreases name.len(),
{
    let s = name + rest;
    if name.len() == 0 {
        assert(s =~= rest);
    } else {
        let tail = name.skip(1);
        assert(!is_space(name[0]));
        assert forall|i: int| 0 <= i < tail.len() implies !is_space(#[trigger] tail[i]) by {
            assert(!is_space(name[i + 1]));
        }
        lemma_first_word(tail, rest);
        assert(s.skip(1) =~= tail + rest);
        assert(seq![name[0]] + tail =~= name);
    }
}

/// What stands behind a word and a gap is found behind it.
proof fn lemma_behind_word(word: Seq<char>, gap: Seq<char>, text: Seq<char>)
    requires
        is_gap(gap),
        text.len() > 0,
        !is_space(text[0]),
    ensures
        behind_word(word + gap + text, word) == Some(text),
{
    let s = word + gap + text;
    assert(s.take(word.len() as int) =~= word);
    assert(s[word.len() as int] == gap[0]);
    assert(is_space(gap[0]));
    assert(s.skip(word.len() as int) =~= gap + text);
    lemma_indent_told(gap, text);
}

/// A line declares the name that stands behind `theorem`, `lemma` or `def`, with white space
/// between and before, whether `private` stands before it or not.
pub proof fn lemma_name_declared(
    indent: Seq<char>,
    private: bool,
    gap: Seq<char>,
    word: Seq<char>,
    space: Seq<char>,
    name: Seq<char>,
    rest: Seq<char>,
)
    requires
        forall|i: int| 0 <= i < indent.len() ==> is_space(#[trigger] indent[i]),
        is_gap(gap),
        word == "theorem"@ || word == "lemma"@ || word == "def"@,
        is_gap(space),
        name.len() > 0,
        forall|i: int| 0 <= i < name.len() ==> !is_space(#[trigger] name[i]),
        rest.len() > 0 ==> is_space(rest[0]),
    ensures
        ({
            let own = word + space + (name + rest);
            let line = if private {
                "private"@ + gap + own
            } else {
                own
            };
            declared_name(indent + line) == Some(name)
        }),
{
    reveal_strlit("theorem");
    reveal_strlit("lemma");
    reveal_strlit("def");
    reveal_strlit("private");
    let own = word + space + (name + rest);
    let line = if private {
        "private"@ + gap + own
    } else {
        own
    };
    assert(word.len() > 0 && own[0] == word[0]);
    assert(word[0] == 't' || word[0] == 'l' || word[0] == 'd');
    assert(line[0] == own[0] || line[0] == 'p');
    assert(!is_space(name[0]));
    assert((name + rest)[0] == name[0]);
    lemma_indent_told(indent, line);
    lemma_behind_word(word, space, name + rest);
    lemma_first_word(name, rest);
    assert forall|w: Seq<char>| w.len() > 0 && w[0] != own[0] implies #[trigger] behind_word(own, w)
        is None by {
        if starts_with_of(own, w) {
            assert(own.take(w.len() as int)[0] == own[0]);
        }
    }
    if private {
        lemma_behind_word("private"@, gap, own);
    } else {
        assert(behind_word(own, "private"@) is None);
    }
    assert("theorem"@[0] == 't' && "lemma"@[0] == 'l' && "def"@[0] == 'd');
}

/// A line that declares a name begins with one of these words, white space aside.
pub proof fn lemma_declaring_words(line: Seq<char>)
    requires
        declared_name(line) is Some,
    ensures
        ({
            let s = trim_start_of(line);
            ||| starts_with_of(s, "private"@)
            ||| starts_with_of(s, "theorem"@)
            ||| starts_with_of(s, "lemma"@)
            ||| starts_with_of(s, "def"@)
        }),
{
}

/// A line is one of a header where one of these words and white space stand at its start.
pub proof fn lemma_header_words(word: Seq<char>, rest: Seq<char>, line: Seq<char>)
    requires
        word == "import"@ || word == "open"@ || word == "set_option"@ || word == "universe"@ || word
            == "variable"@,
        rest.len() > 0,
        is_space(rest[0]),
    ensures
        header_of(word + rest),
        header_of(line) ==> starts_with_of(line, "import"@) || starts_with_of(line, "open"@)
            || starts_with_of(line, "set_option"@) || starts_with_of(line, "universe"@)
            || starts_with_of(line, "variable"@),
{
    assert((word + rest).take(word.len() as int) =~= word);
    assert((word + rest)[word.len() as int] == rest[0]);
}

/// A group of the first match is that of the match which stands first; there is none where
/// there is no match, or where the match has no such group.
pub proof fn lemma_first_group(pattern: Seq<char>, text: Seq<char>, i: int)
    ensures
        regex_matches(pattern, text).len() == 0 ==> first_group(pattern, text, i) is None,
        regex_matches(pattern, text).len() > 0 && 0 <= i < regex_matches(pattern, text)[0].len()
            ==> first_group(pattern, text, i) == regex_matches(pattern, text)[0][i],
        regex_matches(pattern, text).len() > 0 && i >= regex_matches(pattern, text)[0].len()
            ==> first_group(pattern, text, i) is None,
{
}

} // verus!
