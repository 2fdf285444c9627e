//! Text as a sequence of characters: the models that the contracts of this
//! library speak of, and executable functions that meet them.
use vstd::prelude::*;
use vstd::slice::slice_subrange;
use vstd::string::*;
use vstd::utf8::*;

verus! {

// ---------------------------------------------------------------------------
// Characters
// ---------------------------------------------------------------------------

/// The characters of Unicode's `White_Space` property.
pub open spec fn is_space(c: char) -> bool {
    ||| '\u{9}' <= c <= '\u{d}'
    ||| c == ' '
    ||| c == '\u{85}'
    ||| c == '\u{a0}'
    ||| c == '\u{1680}'
    ||| '\u{2000}' <= c <= '\u{200a}'
    ||| c == '\u{2028}'
    ||| c == '\u{2029}'
    ||| c == '\u{202f}'
    ||| c == '\u{205f}'
    ||| c == '\u{3000}'
}

/// Whether `c` is white space.
pub fn is_whitespace(c: char) -> (r: bool)
    ensures
        r == is_space(c),
{
    ('\u{9}' <= c && c <= '\u{d}') || c == ' ' || c == '\u{85}' || c == '\u{a0}' || c == '\u{1680}'
        || ('\u{2000}' <= c && c <= '\u{200a}') || c == '\u{2028}' || c == '\u{2029}' || c
        == '\u{202f}' || c == '\u{205f}' || c == '\u{3000}'
}

// ---------------------------------------------------------------------------
// Strings and slices of characters
// ---------------------------------------------------------------------------

/// `String::push` appends one character.
pub assume_specification[ String::push ](s: &mut String, c: char)
    ensures
        final(s)@ == old(s)@.push(c),
;

/// The characters of a string.
pub fn chars_of(s: &str) -> (r: Vec<char>)
    ensures
        r@ == s@,
{
    let mut out: Vec<char> = Vec::new();
    for c in it: s.chars()
        invariant
            out@ == s@.take(it.index() as int),
            it.seq() == s@,
    {
        proof {
            assert(s@.take(it.index() + 1) == s@.take(it.index() as int).push(
                s@[it.index() as int],
            ));
        }
        out.push(c);
    }
    assert(s@.take(s@.len() as int) == s@);
    out
}

/// The string made of some characters.
pub fn text_of(cs: &[char]) -> (r: String)
    ensures
        r@ == cs@,
{
    let mut out = String::new();
    for i in 0..cs.len()
        invariant
            out@ == cs@.take(i as int),
    {
        proof {
            assert(cs@.take(i + 1) == cs@.take(i as int).push(cs@[i as int]));
        }
        out.push(cs[i]);
    }
    assert(cs@.take(cs@.len() as int) == cs@);
    out
}

/// Whether two strings hold the same characters.
pub fn same_text(a: &str, b: &str) -> (r: bool)
    ensures
        r == (a@ == b@),
{
    a.to_owned() == b.to_owned()
}

/// Two texts, one after the other.
pub fn glue(a: &str, b: &str) -> (r: String)
    ensures
        r@ == a@ + b@,
{
    let mut s = a.to_owned();
    s.append(b);
    s
}

/// Three texts, one after the other.
pub fn glue3(a: &str, b: &str, c: &str) -> (r: String)
    ensures
        r@ == a@ + b@ + c@,
{
    let mut s = a.to_owned();
    s.append(b);
    s.append(c);
    s
}

/// A copy of some strings.
pub fn copy_texts(v: &[String]) -> (r: Vec<String>)
    ensures
        texts(r@) == texts(v@),
{
    let mut out: Vec<String> = Vec::new();
    for i in 0..v.len()
        invariant
            texts(out@) == texts(v@).take(i as int),
    {
        let ghost before = out@;
        out.push(v[i].clone());
        proof {
            assert(texts(out@) =~= texts(before).push(v@[i as int]@));
            assert(texts(v@).take(i + 1) =~= texts(v@).take(i as int).push(v@[i as int]@));
        }
    }
    assert(texts(v@).take(v@.len() as int) =~= texts(v@));
    out
}

/// Some texts, borrowed.
pub fn borrowed(v: &[String]) -> (r: Vec<&str>)
    ensures
        strs(r@) == texts(v@),
{
    let mut r: Vec<&str> = Vec::new();
    for i in 0..v.len()
        invariant
            strs(r@) == texts(v@).take(i as int),
    {
        let ghost before = r@;
        r.push(v[i].as_str());
        proof {
            assert(strs(r@) =~= strs(before).push(v@[i as int]@));
            assert(texts(v@).take(i + 1) =~= texts(v@).take(i as int).push(v@[i as int]@));
        }
    }
    proof {
        assert(texts(v@).take(v@.len() as int) =~= texts(v@));
    }
    r
}

/// Some texts of their own.
pub fn owned(v: Vec<&str>) -> (r: Vec<String>)
    ensures
        texts(r@) == strs(v@),
{
    let mut out: Vec<String> = Vec::new();
    for i in 0..v.len()
        invariant
            texts(out@) == strs(v@).take(i as int),
    {
        let ghost before = out@;
        out.push(v[i].to_owned());
        proof {
            assert(texts(out@) =~= texts(before).push(v@[i as int]@));
            assert(strs(v@).take(i + 1) =~= strs(v@).take(i as int).push(v@[i as int]@));
        }
    }
    assert(strs(v@).take(v@.len() as int) =~= strs(v@));
    out
}

// ---------------------------------------------------------------------------
// Prefixes, suffixes and occurrences
// ---------------------------------------------------------------------------

/// Whether `s` begins with `p`.
pub open spec fn starts_with_of(s: Seq<char>, p: Seq<char>) -> bool {
    p.len() <= s.len() && s.take(p.len() as int) == p
}

/// Whether `s` ends with `p`.
pub open spec fn ends_with_of(s: Seq<char>, p: Seq<char>) -> bool {
    p.len() <= s.len() && s.skip(s.len() - p.len()) == p
}

/// Whether `p` stands in `s` at position `i`.
pub open spec fn occurs_at(s: Seq<char>, p: Seq<char>, i: int) -> bool {
    0 <= i && i + p.len() <= s.len() && s.subrange(i, i + p.len()) == p
}

/// Whether `p` stands anywhere in `s`.
pub open spec fn contains_of(s: Seq<char>, p: Seq<char>) -> bool {
    exists|i: int| occurs_at(s, p, i)
}

/// The first position at or after `from` where `p` stands in `s`.
pub open spec fn first_from(s: Seq<char>, p: Seq<char>, from: int) -> Option<int>
    decreases s.len() + 1 - from,
{
    if from > s.len() {
        None
    } else if occurs_at(s, p, from) {
        Some(from)
    } else {
        first_from(s, p, from + 1)
    }
}

/// The first position where `p` stands in `s`.
pub open spec fn find_of(s: Seq<char>, p: Seq<char>) -> Option<int> {
    first_from(s, p, 0)
}

/// What `first_from` finds is an occurrence and the first one.
pub proof fn lemma_first_from(s: Seq<char>, p: Seq<char>, from: int)
    requires
        0 <= from,
    ensures
        first_from(s, p, from) matches Some(i) ==> from <= i && occurs_at(s, p, i) && (
        forall|j: int| from <= j < i ==> !occurs_at(s, p, j)),
        first_from(s, p, from) is None ==> (forall|j: int| from <= j ==> !occurs_at(s, p, j)),
    decreases s.len() + 1 - from,
{
    if from <= s.len() && !occurs_at(s, p, from) {
        lemma_first_from(s, p, from + 1);
    }
}

/// A text contains `p` exactly when a first position of `p` is found.
pub proof fn lemma_find_contains(s: Seq<char>, p: Seq<char>)
    ensures
        find_of(s, p) is Some <==> contains_of(s, p),
        find_of(s, p) matches Some(i) ==> occurs_at(s, p, i),
{
    lemma_first_from(s, p, 0);
}

/// Whether `p` stands in `s` at position `i`.
pub fn at(s: &[char], p: &[char], i: usize) -> (r: bool)
    ensures
        r == occurs_at(s@, p@, i as int),
{
    if s.len() < p.len() || s.len() - p.len() < i {
        return false;
    }
    let mut k: usize = 0;
    while k < p.len()
        invariant
            k <= p@.len(),
            i + p@.len() <= s@.len(),
            s@.len() == s.len(),
            forall|j: int| 0 <= j < k ==> s@[i + j] == p@[j],
        decreases p@.len() - k,
    {
        if s[i + k] != p[k] {
            proof {
                assert(s@.subrange(i as int, i + p@.len())[k as int] != p@[k as int]);
            }
            return false;
        }
        k = k + 1;
    }
    proof {
        assert(s@.subrange(i as int, i + p@.len()) =~= p@);
    }
    true
}

/// The first position where `p` stands in `s`.
pub fn find(s: &[char], p: &[char]) -> (r: Option<usize>)
    ensures
        r matches Some(i) ==> find_of(s@, p@) == Some(i as int) && i + p@.len() <= s@.len(),
        r is None ==> find_of(s@, p@) is None,
{
    let mut i: usize = 0;
    loop
        invariant
            i <= s@.len(),
            find_of(s@, p@) == first_from(s@, p@, i as int),
        decreases s@.len() - i,
    {
        if at(s, p, i) {
            return Some(i);
        }
        if i == s.len() {
            proof {
                assert(first_from(s@, p@, i + 1) is None);
            }
            return None;
        }
        i = i + 1;
    }
}

/// Whether `p` stands anywhere in `s`.
pub fn contains(s: &[char], p: &[char]) -> (r: bool)
    ensures
        r == contains_of(s@, p@),
{
    proof {
        lemma_find_contains(s@, p@);
    }
    match find(s, p) {
        Some(_) => true,
        None => false,
    }
}

/// Whether `s` begins with `p`.
pub fn starts_with(s: &[char], p: &[char]) -> (r: bool)
    ensures
        r == starts_with_of(s@, p@),
{
    proof {
        if p@.len() <= s@.len() {
            assert(s@.subrange(0, p@.len() as int) == s@.take(p@.len() as int));
        }
    }
    at(s, p, 0)
}

/// Whether `s` ends with `p`.
pub fn ends_with(s: &[char], p: &[char]) -> (r: bool)
    ensures
        r == ends_with_of(s@, p@),
{
    if s.len() < p.len() {
        return false;
    }
    proof {
        assert(s@.subrange(s@.len() - p@.len(), s@.len() - p@.len() + p@.len()) == s@.skip(
            s@.len() - p@.len(),
        ));
    }
    at(s, p, s.len() - p.len())
}

/// Whether the string `s` begins with `p`.
pub fn str_starts_with(s: &str, p: &str) -> (r: bool)
    ensures
        r == starts_with_of(s@, p@),
{
    starts_with(&chars_of(s), &chars_of(p))
}

/// Whether `p` stands anywhere in the string `s`.
pub fn str_contains(s: &str, p: &str) -> (r: bool)
    ensures
        r == contains_of(s@, p@),
{
    contains(&chars_of(s), &chars_of(p))
}

// ---------------------------------------------------------------------------
// Trimming
// ---------------------------------------------------------------------------

/// `s` without its leading white space.
pub open spec fn trim_start_of(s: Seq<char>) -> Seq<char>
    decreases s.len(),
{
    if s.len() > 0 && is_space(s[0]) {
        trim_start_of(s.skip(1))
    } else {
        s
    }
}

/// `s` without its trailing white space.
pub open spec fn trim_end_of(s: Seq<char>) -> Seq<char>
    decreases s.len(),
{
    if s.len() > 0 && is_space(s.last()) {
        trim_end_of(s.drop_last())
    } else {
        s
    }
}

/// `s` without white space at either end.
pub open spec fn trim_of(s: Seq<char>) -> Seq<char> {
    trim_end_of(trim_start_of(s))
}

/// `s` without the copies of `c` at its end.
pub open spec fn trim_end_char_of(s: Seq<char>, c: char) -> Seq<char>
    decreases s.len(),
{
    if s.len() > 0 && s.last() == c {
        trim_end_char_of(s.drop_last(), c)
    } else {
        s
    }
}

/// `s` without the leading characters that `set` holds.
pub open spec fn trim_start_set_of(s: Seq<char>, set: Seq<char>) -> Seq<char>
    decreases s.len(),
{
    if s.len() > 0 && set.contains(s[0]) {
        trim_start_set_of(s.skip(1), set)
    } else {
        s
    }
}

/// `s` without its leading white space.
pub fn trim_start(s: &[char]) -> (r: &[char])
    ensures
        r@ == trim_start_of(s@),
{
    let mut i: usize = 0;
    proof {
        assert(s@.skip(0) == s@);
    }
    while i < s.len() && is_whitespace(s[i])
        invariant
            i <= s@.len(),
            trim_start_of(s@) == trim_start_of(s@.skip(i as int)),
        decreases s@.len() - i,
    {
        proof {
            assert(s@.skip(i as int).skip(1) == s@.skip(i + 1));
        }
        i = i + 1;
    }
    let r = slice_subrange(s, i, s.len());
    proof {
        assert(r@ == s@.skip(i as int));
    }
    r
}

/// `s` without its trailing white space.
pub fn trim_end(s: &[char]) -> (r: &[char])
    ensures
        r@ == trim_end_of(s@),
{
    let mut n: usize = s.len();
    proof {
        assert(s@.take(n as int) == s@);
    }
    while n > 0 && is_whitespace(s[n - 1])
        invariant
            n <= s@.len(),
            trim_end_of(s@) == trim_end_of(s@.take(n as int)),
        decreases n,
    {
        proof {
            assert(s@.take(n as int).drop_last() == s@.take(n - 1));
        }
        n = n - 1;
    }
    let r = slice_subrange(s, 0, n);
    proof {
        assert(r@ == s@.take(n as int));
    }
    r
}

/// `s` without white space at either end.
pub fn trim(s: &[char]) -> (r: &[char])
    ensures
        r@ == trim_of(s@),
{
    trim_end(trim_start(s))
}

/// `s` without the copies of `c` at its end.
pub fn trim_end_char(s: &[char], c: char) -> (r: &[char])
    ensures
        r@ == trim_end_char_of(s@, c),
{
    let mut n: usize = s.len();
    proof {
        assert(s@.take(n as int) == s@);
    }
    while n > 0 && s[n - 1] == c
        invariant
            n <= s@.len(),
            trim_end_char_of(s@, c) == trim_end_char_of(s@.take(n as int), c),
        decreases n,
    {
        proof {
            assert(s@.take(n as int).drop_last() == s@.take(n - 1));
        }
        n = n - 1;
    }
    let r = slice_subrange(s, 0, n);
    proof {
        assert(r@ == s@.take(n as int));
    }
    r
}

/// Whether `set` holds `c`.
pub fn char_in(c: char, set: &[char]) -> (r: bool)
    ensures
        r == set@.contains(c),
{
    for i in 0..set.len()
        invariant
            forall|j: int| 0 <= j < i ==> set@[j] != c,
    {
        if set[i] == c {
            return true;
        }
    }
    false
}

/// `s` without the leading characters that `set` holds.
pub fn trim_start_set<'a>(s: &'a [char], set: &[char]) -> (r: &'a [char])
    ensures
        r@ == trim_start_set_of(s@, set@),
{
    let mut i: usize = 0;
    proof {
        assert(s@.skip(0) == s@);
    }
    while i < s.len() && char_in(s[i], set)
        invariant
            i <= s@.len(),
            trim_start_set_of(s@, set@) == trim_start_set_of(s@.skip(i as int), set@),
        decreases s@.len() - i,
    {
        proof {
            assert(s@.skip(i as int).skip(1) == s@.skip(i + 1));
        }
        i = i + 1;
    }
    let r = slice_subrange(s, i, s.len());
    proof {
        assert(r@ == s@.skip(i as int));
    }
    r
}

// ---------------------------------------------------------------------------
// Splitting and joining
// ---------------------------------------------------------------------------

/// The pieces of `s` between the copies of `c`: never none, and the last one
/// is what follows the last copy.
pub open spec fn split_of(s: Seq<char>, c: char) -> Seq<Seq<char>>
    decreases s.len(),
{
    if s.len() == 0 {
        seq![s]
    } else {
        let pieces = split_of(s.drop_last(), c);
        if s.last() == c {
            pieces.push(Seq::empty())
        } else {
            pieces.drop_last().push(pieces.last().push(s.last()))
        }
    }
}

/// `line` without one carriage return at its end.
pub open spec fn without_cr(line: Seq<char>) -> Seq<char> {
    if line.len() > 0 && line.last() == '\r' {
        line.drop_last()
    } else {
        line
    }
}

/// The lines of `s`: each ends in a line feed, with an optional carriage
/// return before it, and what follows the last line feed is a line of its own
/// unless it is empty.
pub open spec fn lines_of(s: Seq<char>) -> Seq<Seq<char>> {
    let pieces = split_of(s, '\n');
    let ended = pieces.drop_last().map_values(|l: Seq<char>| without_cr(l));
    if pieces.last().len() == 0 {
        ended
    } else {
        ended.push(pieces.last())
    }
}

/// The parts one after the other, with `sep` between them.
pub open spec fn join_of(parts: Seq<Seq<char>>, sep: Seq<char>) -> Seq<char>
    decreases parts.len(),
{
    if parts.len() == 0 {
        Seq::empty()
    } else if parts.len() == 1 {
        parts[0]
    } else {
        join_of(parts.drop_last(), sep) + sep + parts.last()
    }
}

/// `s` with each copy of `from`, taken from the left without overlap, replaced
/// by `to`.
pub open spec fn replace_of(s: Seq<char>, from: Seq<char>, to: Seq<char>) -> Seq<char>
    decreases s.len(),
{
    match find_of(s, from) {
        Some(i) => if 0 < from.len() && 0 <= i && i + from.len() <= s.len() {
            s.take(i) + to + replace_of(s.skip(i + from.len()), from, to)
        } else {
            s
        },
        None => s,
    }
}

/// The texts that some strings hold.
pub open spec fn texts(v: Seq<String>) -> Seq<Seq<char>> {
    v.map_values(|s: String| s@)
}

/// The texts that some string slices hold.
pub open spec fn strs(v: Seq<&str>) -> Seq<Seq<char>> {
    v.map_values(|s: &str| s@)
}

/// A split has at least one piece.
pub proof fn lemma_split_nonempty(s: Seq<char>, c: char)
    ensures
        split_of(s, c).len() >= 1,
    decreases s.len(),
{
    if s.len() > 0 {
        lemma_split_nonempty(s.drop_last(), c);
    }
}

/// A split has no more pieces than the text has characters, and one.
pub proof fn lemma_split_len(s: Seq<char>, c: char)
    ensures
        split_of(s, c).len() <= s.len() + 1,
    decreases s.len(),
{
    if s.len() > 0 {
        lemma_split_len(s.drop_last(), c);
        lemma_split_nonempty(s.drop_last(), c);
    }
}

/// The pieces of two texts, one behind the other: the last piece of the first
/// and the first piece of the second become one.
pub proof fn lemma_split_concat(a: Seq<char>, b: Seq<char>, c: char)
    ensures
        split_of(a, c).len() >= 1,
        split_of(b, c).len() >= 1,
        split_of(a + b, c) == split_of(a, c).drop_last().push(
            split_of(a, c).last() + split_of(b, c)[0],
        ) + split_of(b, c).skip(1),
    decreases b.len(),
{
    let p = split_of(a, c);
    let q = split_of(b, c);
    lemma_split_nonempty(a, c);
    lemma_split_nonempty(b, c);
    if b.len() == 0 {
        assert(a + b =~= a);
        assert(p.last() + q[0] =~= p.last());
        assert(p.drop_last().push(p.last() + q[0]) + q.skip(1) =~= p);
    } else {
        let q0 = split_of(b.drop_last(), c);
        lemma_split_concat(a, b.drop_last(), c);
        let before = p.drop_last().push(p.last() + q0[0]) + q0.skip(1);
        assert((a + b).drop_last() =~= a + b.drop_last());
        assert((a + b).last() == b.last());
        assert(split_of(a + b.drop_last(), c) == before);
        if b.last() == c {
            assert(p.drop_last().push(p.last() + q[0]) + q.skip(1) =~= before.push(
                Seq::empty(),
            ));
        } else {
            assert(before.last() == if q0.len() == 1 {
                p.last() + q0[0]
            } else {
                q0.last()
            });
            if q0.len() == 1 {
                assert((p.last() + q0[0]).push(b.last()) =~= p.last() + q0[0].push(b.last()));
            }
            assert(p.drop_last().push(p.last() + q[0]) + q.skip(1) =~= before.drop_last().push(
                before.last().push(b.last()),
            ));
        }
    }
}

/// No piece of a split holds the character at which it was split.
pub proof fn lemma_split_pieces(s: Seq<char>, c: char)
    ensures
        forall|i: int|
            0 <= i < split_of(s, c).len() ==> !(#[trigger] split_of(s, c)[i]).contains(c),
    decreases s.len(),
{
    if s.len() > 0 {
        let before = split_of(s.drop_last(), c);
        let all = split_of(s, c);
        lemma_split_pieces(s.drop_last(), c);
        lemma_split_nonempty(s.drop_last(), c);
        assert forall|i: int| 0 <= i < all.len() implies !(#[trigger] all[i]).contains(c) by {
            if i < all.len() - 1 {
                assert(all[i] == before[i]);
            } else if s.last() != c {
                assert(!before.last().contains(c));
                assert(all[i] == before.last().push(s.last()));
            }
        }
    }
}

/// No line holds a line feed.
pub proof fn lemma_lines_unbroken(s: Seq<char>)
    ensures
        forall|i: int| 0 <= i < lines_of(s).len() ==> !(#[trigger] lines_of(s)[i]).contains('\n'),
{
    let pieces = split_of(s, '\n');
    lemma_split_nonempty(s, '\n');
    lemma_split_pieces(s, '\n');
    assert forall|i: int| 0 <= i < lines_of(s).len() implies !(
    #[trigger] lines_of(s)[i]).contains('\n') by {
        assert(!pieces[i].contains('\n'));
    }
}

/// A text without `c` is one piece.
pub proof fn lemma_split_whole(s: Seq<char>, c: char)
    requires
        !s.contains(c),
    ensures
        split_of(s, c) == seq![s],
    decreases s.len(),
{
    if s.len() > 0 {
        assert(s.last() == s[s.len() - 1]);
        assert forall|i: int| 0 <= i < s.drop_last().len() implies s.drop_last()[i] != c by {
            assert(s.drop_last()[i] == s[i]);
        }
        lemma_split_whole(s.drop_last(), c);
        assert(s.drop_last().push(s.last()) =~= s);
        assert(split_of(s, c) =~= seq![s]);
    }
}

/// Splitting undoes joining, where no part holds the character between them.
pub proof fn lemma_split_join(parts: Seq<Seq<char>>, c: char)
    requires
        parts.len() > 0,
        forall|i: int| 0 <= i < parts.len() ==> !(#[trigger] parts[i]).contains(c),
    ensures
        split_of(join_of(parts, seq![c]), c) == parts,
    decreases parts.len(),
{
    assert(!parts.last().contains(c));
    lemma_split_whole(parts.last(), c);
    if parts.len() == 1 {
        assert(parts =~= seq![parts[0]]);
    } else {
        let before = join_of(parts.drop_last(), seq![c]);
        assert forall|i: int| 0 <= i < parts.drop_last().len() implies !(
        #[trigger] parts.drop_last()[i]).contains(c) by {
            assert(!parts[i].contains(c));
        }
        lemma_split_join(parts.drop_last(), c);
        let ended = before + seq![c];
        assert(ended.drop_last() =~= before);
        assert(split_of(ended, c).drop_last() =~= parts.drop_last());
        lemma_split_behind(ended, parts.last(), c);
        assert(parts.drop_last() + seq![parts.last()] =~= parts);
    }
}

/// Joining undoes splitting.
pub proof fn lemma_join_split(s: Seq<char>, c: char)
    ensures
        join_of(split_of(s, c), seq![c]) == s,
    decreases s.len(),
{
    let pieces = split_of(s, c);
    if s.len() == 0 {
        assert(join_of(pieces, seq![c]) == s);
    } else {
        let before = split_of(s.drop_last(), c);
        lemma_split_nonempty(s.drop_last(), c);
        lemma_join_split(s.drop_last(), c);
        if s.last() == c {
            assert(pieces.drop_last() =~= before);
            assert(join_of(pieces, seq![c]) =~= s);
        } else {
            assert(pieces.drop_last() =~= before.drop_last());
            assert(join_of(pieces, seq![c]) =~= join_of(before, seq![c]).push(s.last()));
            assert(s =~= s.drop_last().push(s.last()));
        }
    }
}

/// Behind a text that is empty or ends in `c`, the pieces of another stand
/// unchanged.
pub proof fn lemma_split_behind(a: Seq<char>, b: Seq<char>, c: char)
    requires
        a.len() > 0 ==> a.last() == c,
    ensures
        split_of(a, c).len() >= 1,
        split_of(a, c).last().len() == 0,
        split_of(a + b, c) == split_of(a, c).drop_last() + split_of(b, c),
{
    let p = split_of(a, c);
    let q = split_of(b, c);
    lemma_split_concat(a, b, c);
    assert(p.last() + q[0] =~= q[0]);
    assert(p.drop_last().push(p.last() + q[0]) + q.skip(1) =~= p.drop_last() + q);
}

/// The pieces of `s` between the copies of `c`.
pub fn split(s: &str, c: char) -> (r: Vec<String>)
    ensures
        texts(r@) == split_of(s@, c),
        r@.len() >= 1,
{
    let cs = chars_of(s);
    let mut out: Vec<String> = Vec::new();
    let mut cur = String::new();
    proof {
        assert(texts(out@).push(cur@) == seq![Seq::<char>::empty()]);
        assert(s@.take(0) == Seq::<char>::empty());
    }
    for i in 0..cs.len()
        invariant
            cs@ == s@,
            split_of(s@.take(i as int), c) == texts(out@).push(cur@),
    {
        proof {
            assert(s@.take(i + 1).drop_last() == s@.take(i as int));
            assert(texts(out@).push(cur@).drop_last() == texts(out@));
        }
        if cs[i] == c {
            let ghost before = texts(out@).push(cur@);
            out.push(cur);
            proof {
                assert(texts(out@) == before);
            }
            cur = String::new();
        } else {
            cur.push(cs[i]);
        }
    }
    proof {
        assert(s@.take(s@.len() as int) == s@);
    }
    let ghost before = texts(out@).push(cur@);
    out.push(cur);
    proof {
        assert(texts(out@) == before);
    }
    out
}

/// The lines of `s`.
pub fn lines(s: &str) -> (r: Vec<String>)
    ensures
        texts(r@) == lines_of(s@),
{
    let pieces = split(s, '\n');
    let ghost all = split_of(s@, '\n');
    let mut out: Vec<String> = Vec::new();
    let n: usize = pieces.len() - 1;
    for i in 0..n
        invariant
            n + 1 == pieces@.len(),
            texts(pieces@) == all,
            texts(out@) == all.take(i as int).map_values(|l: Seq<char>| without_cr(l)),
    {
        let cs = chars_of(pieces[i].as_str());
        let len: usize = cs.len();
        let line = if len > 0 && cs[len - 1] == '\r' {
            let r = text_of(slice_subrange(&cs, 0, len - 1));
            proof {
                assert(r@ == cs@.drop_last());
            }
            r
        } else {
            text_of(&cs)
        };
        proof {
            assert(texts(pieces@)[i as int] == cs@);
            assert(line@ == without_cr(all[i as int]));
            assert(all.take(i + 1).map_values(|l: Seq<char>| without_cr(l)) == all.take(
                i as int,
            ).map_values(|l: Seq<char>| without_cr(l)).push(line@));
            assert(texts(out@.push(line)) == texts(out@).push(line@));
        }
        out.push(line);
    }
    proof {
        assert(all.take(n as int) == all.drop_last());
        assert(texts(pieces@)[n as int] == pieces@[n as int]@);
    }
    if !pieces[n].as_str().is_empty() {
        let last = pieces[n].clone();
        proof {
            assert(texts(out@.push(last)) == texts(out@).push(last@));
        }
        out.push(last);
    }
    out
}

/// The parts one after the other, with `sep` between them.
pub fn join(parts: &[String], sep: &str) -> (r: String)
    ensures
        r@ == join_of(texts(parts@), sep@),
{
    let mut out = String::new();
    for i in 0..parts.len()
        invariant
            out@ == join_of(texts(parts@).take(i as int), sep@),
    {
        proof {
            assert(texts(parts@).take(i + 1).drop_last() == texts(parts@).take(i as int));
            assert(texts(parts@).take(i + 1).last() == parts@[i as int]@);
        }
        if i > 0 {
            out.append(sep);
        }
        out.append(parts[i].as_str());
    }
    proof {
        assert(texts(parts@).take(parts@.len() as int) == texts(parts@));
    }
    out
}

/// `s` with each copy of `from` replaced by `to`.
pub fn replace(s: &str, from: &str, to: &str) -> (r: String)
    requires
        from@.len() > 0,
    ensures
        r@ == replace_of(s@, from@, to@),
{
    let cs = chars_of(s);
    let fs = chars_of(from);
    let mut out = String::new();
    let mut i: usize = 0;
    proof {
        assert(s@.skip(0) == s@);
    }
    loop
        invariant
            cs@ == s@,
            fs@ == from@,
            from@.len() > 0,
            i <= cs@.len(),
            replace_of(s@, from@, to@) == out@ + replace_of(s@.skip(i as int), from@, to@),
        decreases cs@.len() - i,
    {
        let rest = slice_subrange(&cs, i, cs.len());
        proof {
            assert(rest@ == s@.skip(i as int));
        }
        match find(rest, &fs) {
            Some(k) => {
                let ghost before = out@;
                out.append(text_of(slice_subrange(rest, 0, k)).as_str());
                out.append(to);
                proof {
                    assert(rest@.subrange(0, k as int) == rest@.take(k as int));
                    assert(rest@.skip(k + from@.len()) == s@.skip(i + k + from@.len()));
                    assert(out@ + replace_of(s@.skip(i + k + from@.len()), from@, to@) == before
                        + replace_of(rest@, from@, to@));
                }
                i = i + k + fs.len();
            },
            None => {
                out.append(text_of(rest).as_str());
                return out;
            },
        }
    }
}

// ---------------------------------------------------------------------------
// Numbers as text
// ---------------------------------------------------------------------------

/// The decimal digit `d`.
pub open spec fn digit_of(d: nat) -> char {
    (48 + d) as u8 as char
}

/// The number `n` in decimal digits.
pub open spec fn decimal_of(n: nat) -> Seq<char>
    decreases n,
{
    if n < 10 {
        seq![digit_of(n)]
    } else {
        decimal_of(n / 10).push(digit_of(n % 10))
    }
}

/// The number `n` in decimal digits, with a sign where it is negative.
pub open spec fn signed_decimal_of(n: int) -> Seq<char> {
    if n < 0 {
        seq!['-'] + decimal_of((-n) as nat)
    } else {
        decimal_of(n as nat)
    }
}

/// The number that decimal digits stand for.
pub open spec fn digits_value(s: Seq<char>) -> nat
    decreases s.len(),
{
    if s.len() == 0 {
        0
    } else {
        10 * digits_value(s.drop_last()) + ((s.last() as u32) - 48) as nat
    }
}

/// Whether `s` is made of ASCII digits, at least one.
pub open spec fn is_digits(s: Seq<char>) -> bool {
    s.len() > 0 && forall|i: int| 0 <= i < s.len() ==> '0' <= #[trigger] s[i] <= '9'
}

/// Reading back the decimal digits of a number gives the number.
pub proof fn lemma_decimal_value(n: nat)
    ensures
        is_digits(decimal_of(n)),
        digits_value(decimal_of(n)) == n,
    decreases n,
{
    if n < 10 {
        assert(decimal_of(n).drop_last() == Seq::<char>::empty());
        assert(digits_value(Seq::<char>::empty()) == 0);
    } else {
        lemma_decimal_value(n / 10);
        assert(decimal_of(n).drop_last() == decimal_of(n / 10));
    }
}

/// The number that some decimal digits stand for, where there are any and it is
/// one of 64 bits.
pub open spec fn number_of(s: Seq<char>) -> Option<u64> {
    if is_digits(s) && digits_value(s) <= u64::MAX {
        Some(digits_value(s) as u64)
    } else {
        None
    }
}

/// The more digits, the larger the number.
pub proof fn lemma_digits_grow(s: Seq<char>, n: int)
    requires
        is_digits(s),
        0 <= n <= s.len(),
    ensures
        digits_value(s.take(n)) <= digits_value(s),
    decreases s.len(),
{
    if n == 0 {
        assert(digits_value(s.take(0)) == 0);
    } else if n < s.len() {
        assert forall|i: int| 0 <= i < s.drop_last().len() implies '0' <= (
        #[trigger] s.drop_last()[i]) <= '9' by {
            assert(s.drop_last()[i] == s[i]);
        }
        lemma_digits_grow(s.drop_last(), n);
        assert(s.drop_last().take(n) =~= s.take(n));
    } else {
        assert(s.take(n) =~= s);
    }
}

/// The number that some decimal digits stand for, where there are any and it is
/// one of 64 bits.
pub fn parse_number(s: &str) -> (r: Option<u64>)
    ensures
        r == number_of(s@),
{
    let cs = chars_of(s);
    if cs.len() == 0 {
        return None;
    }
    for i in 0..cs.len()
        invariant
            cs@ == s@,
            forall|j: int| 0 <= j < i ==> '0' <= #[trigger] s@[j] && s@[j] <= '9',
    {
        if cs[i] < '0' || cs[i] > '9' {
            proof {
                assert(!('0' <= s@[i as int] && s@[i as int] <= '9'));
            }
            return None;
        }
    }
    let mut n: u64 = 0;
    proof {
        assert(is_digits(s@));
        assert(s@.take(0) =~= Seq::<char>::empty());
    }
    for i in 0..cs.len()
        invariant
            cs@ == s@,
            is_digits(s@),
            n == digits_value(s@.take(i as int)),
    {
        let d: u64 = (cs[i] as u32 - 48) as u64;
        proof {
            assert(s@.take(i + 1).drop_last() =~= s@.take(i as int));
            assert(s@.take(i + 1).last() == s@[i as int]);
            lemma_digits_grow(s@, i + 1);
        }
        match n.checked_mul(10) {
            Some(m) => match m.checked_add(d) {
                Some(k) => {
                    n = k;
                },
                None => return None,
            },
            None => return None,
        }
    }
    assert(s@.take(s@.len() as int) =~= s@);
    Some(n)
}

/// The number `n` in decimal digits.
pub fn decimal(n: u64) -> (r: String)
    ensures
        r@ == decimal_of(n as nat),
    decreases n,
{
    let d: char = (48u8 + (n % 10) as u8) as char;
    if n < 10 {
        let mut s = String::new();
        s.push(d);
        proof {
            assert(s@ == seq![digit_of(n as nat)]);
        }
        s
    } else {
        let mut s = decimal(n / 10);
        s.push(d);
        s
    }
}

/// The number `n` in decimal digits, with a sign where it is negative.
pub fn signed_decimal(n: i64) -> (r: String)
    ensures
        r@ == signed_decimal_of(n as int),
{
    if n < 0 {
        let m: u64 = (-(n as i128)) as u64;
        let mut s = String::new();
        s.push('-');
        proof {
            assert(s@ == seq!['-']);
        }
        s.append(decimal(m).as_str());
        s
    } else {
        decimal(n as u64)
    }
}

// ---------------------------------------------------------------------------
// Lengths in bytes
// ---------------------------------------------------------------------------

/// The number of bytes that `s` takes in UTF-8.
pub open spec fn byte_len(s: Seq<char>) -> nat {
    encode_utf8(s).len()
}

/// Whether byte `n` of `s` in UTF-8 is where a character begins, or the end.
pub open spec fn is_boundary(s: Seq<char>, n: int) -> bool {
    is_char_boundary(encode_utf8(s), n)
}

/// The characters of the first `n` bytes of `s`.
pub open spec fn byte_take(s: Seq<char>, n: int) -> Seq<char> {
    decode_utf8(encode_utf8(s).take(n))
}

/// The encoding of two texts one after the other.
pub proof fn lemma_encode_concat(a: Seq<char>, b: Seq<char>)
    ensures
        encode_utf8(a + b) == encode_utf8(a) + encode_utf8(b),
    decreases a.len(),
{
    if a.len() == 0 {
        assert(a + b == b);
        assert(encode_utf8(a) + encode_utf8(b) == encode_utf8(b));
    } else {
        assert((a + b).drop_first() == a.drop_first() + b);
        lemma_encode_concat(a.drop_first(), b);
        assert(encode_utf8(a + b) == encode_utf8(a) + encode_utf8(b));
    }
}

/// A prefix of a text ends at a character boundary of it.
pub proof fn lemma_boundary_concat(a: Seq<char>, b: Seq<char>)
    ensures
        is_boundary(a + b, byte_len(a) as int),
    decreases a.len(),
{
    broadcast use encode_utf8_valid_utf8;

    if a.len() > 0 {
        let bytes = encode_utf8(a + b);
        encode_utf8_first_scalar(a + b);
        assert((a + b).drop_first() == a.drop_first() + b);
        assert(pop_first_scalar(bytes) =~= encode_utf8(a.drop_first() + b));
        lemma_boundary_concat(a.drop_first(), b);
        lemma_encode_concat(a, b);
    }
}

/// The first bytes of a text, up to the end of a prefix, are that prefix.
pub proof fn lemma_byte_take_prefix(a: Seq<char>, b: Seq<char>)
    ensures
        is_boundary(a + b, byte_len(a) as int),
        byte_len(a) <= byte_len(a + b),
        byte_take(a + b, byte_len(a) as int) == a,
{
    lemma_boundary_concat(a, b);
    lemma_encode_concat(a, b);
    assert(encode_utf8(a + b).take(byte_len(a) as int) == encode_utf8(a));
    encode_utf8_decode_utf8(a);
}

/// The number of bytes of a text is at least its number of characters.
pub proof fn lemma_byte_len_chars(s: Seq<char>)
    ensures
        s.len() <= byte_len(s),
        s.len() == 0 <==> byte_len(s) == 0,
    decreases s.len(),
{
    if s.len() > 0 {
        lemma_byte_len_chars(s.drop_first());
    }
}

/// The number of bytes that a string takes.
pub fn str_bytes(s: &str) -> (r: usize)
    ensures
        r == byte_len(s@),
{
    s.as_bytes().len()
}

/// The number of bytes that some characters take.
pub fn chars_bytes(cs: &[char]) -> (r: usize)
    ensures
        r == byte_len(cs@),
{
    str_bytes(text_of(cs).as_str())
}

/// Whether byte `n` of `s` is where a character begins, or the end.
pub fn at_boundary(s: &str, n: usize) -> (r: bool)
    ensures
        r == is_boundary(s@, n as int),
{
    s.is_char_boundary(n)
}

/// The first `n` bytes of `s`, which must end where a character does.
pub fn str_prefix(s: &str, n: usize) -> (r: &str)
    requires
        is_boundary(s@, n as int),
    ensures
        r@ == byte_take(s@, n as int),
{
    let r = s.split_at(n).0;
    proof {
        encode_utf8_decode_utf8(r@);
        assert(r.spec_bytes() == s.spec_bytes().take(n as int));
    }
    r
}

/// The leading white space of `s`; empty where `s` is nothing else.
pub open spec fn indent_of(s: Seq<char>) -> Seq<char> {
    if trim_start_of(s).len() == 0 {
        Seq::empty()
    } else {
        s.take(indent_chars(s))
    }
}

/// The leading white space of `s`; empty where `s` is nothing else.
pub fn leading_space(s: &str) -> (r: String)
    ensures
        r@ == indent_of(s@),
{
    let cs = chars_of(s);
    let t = trim_start(&cs);
    proof {
        lemma_trim_start(s@);
    }
    if t.len() == 0 {
        String::new()
    } else {
        let head = slice_subrange(&cs, 0, cs.len() - t.len());
        proof {
            assert(head@ =~= s@.take(indent_chars(s@)));
        }
        text_of(head)
    }
}

/// The length in characters of the leading white space of `s`.
pub open spec fn indent_chars(s: Seq<char>) -> int {
    s.len() - trim_start_of(s).len()
}

/// The byte position of the first character of `s` that is no white space, and
/// 0 where there is none.
pub open spec fn first_non_space(s: Seq<char>) -> nat {
    if trim_start_of(s).len() == 0 {
        0
    } else {
        byte_len(s.take(indent_chars(s)))
    }
}

/// Trimming at the start leaves an end of the text.
pub proof fn lemma_trim_start(s: Seq<char>)
    ensures
        trim_start_of(s).len() <= s.len(),
        s.skip(s.len() - trim_start_of(s).len()) == trim_start_of(s),
        forall|i: int| 0 <= i < s.len() - trim_start_of(s).len() ==> is_space(#[trigger] s[i]),
        trim_start_of(s).len() > 0 ==> !is_space(trim_start_of(s)[0]),
    decreases s.len(),
{
    if s.len() > 0 && is_space(s[0]) {
        lemma_trim_start(s.skip(1));
        let t = trim_start_of(s.skip(1));
        assert(s.skip(1).skip(s.skip(1).len() - t.len()) == s.skip(s.len() - t.len()));
        assert forall|i: int| 0 <= i < s.len() - t.len() implies is_space(#[trigger] s[i]) by {
            if i > 0 {
                assert(s.skip(1)[i - 1] == s[i]);
            }
        }
    } else {
        assert(s.skip(0) == s);
    }
}

/// Trimming at the end leaves a prefix of the text.
pub proof fn lemma_trim_end(s: Seq<char>)
    ensures
        trim_end_of(s).len() <= s.len(),
        s.take(trim_end_of(s).len() as int) == trim_end_of(s),
        trim_end_of(s).len() > 0 ==> !is_space(trim_end_of(s).last()),
    decreases s.len(),
{
    if s.len() > 0 && is_space(s.last()) {
        lemma_trim_end(s.drop_last());
        let t = trim_end_of(s.drop_last());
        assert(s.drop_last().take(t.len() as int) == s.take(t.len() as int));
    } else {
        assert(s.take(s.len() as int) == s);
    }
}

/// What trimming takes away at the end is white space.
pub proof fn lemma_trim_end_spaces(s: Seq<char>)
    ensures
        forall|i: int| trim_end_of(s).len() <= i < s.len() ==> is_space(#[trigger] s[i]),
    decreases s.len(),
{
    if s.len() > 0 && is_space(s.last()) {
        lemma_trim_end_spaces(s.drop_last());
        assert forall|i: int| trim_end_of(s).len() <= i < s.len() implies is_space(
            #[trigger] s[i],
        ) by {
            if i < s.len() - 1 {
                assert(s.drop_last()[i] == s[i]);
            }
        }
    }
}

/// Trimming takes away the white space at both ends, all of it and nothing else.
pub proof fn lemma_trimmed(s: Seq<char>)
    ensures
        exists|i: int, j: int|
            0 <= i <= j <= s.len() && trim_of(s) == #[trigger] s.subrange(i, j) && (forall|k: int|
                0 <= k < i || j <= k < s.len() ==> is_space(#[trigger] s[k])),
        trim_of(s).len() > 0 ==> !is_space(trim_of(s)[0]) && !is_space(trim_of(s).last()),
        trim_of(s).len() > 0 <==> exists|k: int| 0 <= k < s.len() && !is_space(#[trigger] s[k]),
{
    let t = trim_start_of(s);
    let u = trim_end_of(t);
    lemma_trim_start(s);
    lemma_trim_end(t);
    lemma_trim_end_spaces(t);
    let i = s.len() - t.len();
    let j = i + u.len();
    assert(u =~= s.subrange(i, j));
    assert forall|k: int| 0 <= k < i || j <= k < s.len() implies is_space(#[trigger] s[k]) by {
        if j <= k {
            assert(t[k - i] == s[k]);
        }
    }
    if u.len() > 0 {
        assert(u[0] == t[0]);
        assert(s[i] == u[0]);
    }
}

/// The byte position of the first character of `s` that is no white space, and
/// 0 where there is none.
pub fn indent_bytes(s: &str) -> (r: usize)
    ensures
        r == first_non_space(s@),
        r <= byte_len(s@),
{
    let cs = chars_of(s);
    let t = trim_start(&cs);
    proof {
        lemma_trim_start(s@);
    }
    if t.len() == 0 {
        0
    } else {
        let head = slice_subrange(&cs, 0, cs.len() - t.len());
        proof {
            let k = indent_chars(s@);
            assert(head@ == s@.take(k));
            assert(s@.take(k) + s@.skip(k) == s@);
            lemma_byte_take_prefix(s@.take(k), s@.skip(k));
        }
        chars_bytes(head)
    }
}

/// The number of bytes of `s` without its trailing white space.
pub fn trimmed_end_bytes(s: &str) -> (r: usize)
    ensures
        r == byte_len(trim_end_of(s@)),
{
    chars_bytes(trim_end(&chars_of(s)))
}

// ---------------------------------------------------------------------------
// Letter case
// ---------------------------------------------------------------------------

/// The text that `str::to_lowercase` gives for a text.
pub uninterp spec fn lowercase_of(s: Seq<char>) -> Seq<char>;

/// `c` in lower case, for an ASCII character.
pub open spec fn ascii_lower(c: char) -> char {
    if 'A' <= c <= 'Z' {
        ((c as u8) + 32) as u8 as char
    } else {
        c
    }
}

/// `str::to_lowercase`: the lower case of a text is a function of the text, and
/// an ASCII text keeps its length and has each letter lowered in place. What it
/// gives for other texts rests on Unicode's tables and is only named.
#[verifier::external_body]
fn lowercase(s: &str) -> (r: String)
    ensures
        r@ == lowercase_of(s@),
        is_ascii_chars(s@) ==> r@ == s@.map_values(|c: char| ascii_lower(c)),
{
    s.to_lowercase()
}

/// A text in lower case.
pub fn to_lower(s: &str) -> (r: String)
    ensures
        r@ == lowercase_of(s@),
        is_ascii_chars(s@) ==> lowercase_of(s@) == s@.map_values(|c: char| ascii_lower(c)),
{
    lowercase(s)
}

/// The end of a line: a line feed, with a carriage return before it or not.
pub open spec fn line_end(cr: bool) -> Seq<char> {
    if cr {
        seq!['\r', '\n']
    } else {
        seq!['\n']
    }
}

/// Some lines as a text, with the same end behind each of them.
pub open spec fn ended_lines(lines: Seq<Seq<char>>, end: Seq<char>) -> Seq<char>
    decreases lines.len(),
{
    if lines.len() == 0 {
        Seq::empty()
    } else {
        ended_lines(lines.drop_last(), end) + lines.last() + end
    }
}

/// Lines that are written are read again, whether they end in a line feed or in a carriage
/// return and a line feed; and what stands behind the last end is a line of its own, unless
/// it is empty.
pub proof fn lemma_lines_read(lines: Seq<Seq<char>>, rest: Seq<char>, cr: bool)
    requires
        forall|i: int|
            0 <= i < lines.len() ==> !(#[trigger] lines[i]).contains('\n') && (lines[i].len() > 0
                ==> lines[i].last() != '\r'),
        !rest.contains('\n'),
    ensures
        lines_of(ended_lines(lines, line_end(cr)) + rest) == if rest.len() == 0 {
            lines
        } else {
            lines.push(rest)
        },
{
    let end = line_end(cr);
    let text = ended_lines(lines, end);
    lemma_lines_split(lines, cr);
    lemma_split_whole(rest, '\n');
    lemma_split_behind(text, rest, '\n');
    let pieces = split_of(text + rest, '\n');
    let before = split_of(text, '\n').drop_last();
    assert(pieces =~= before.push(rest));
    assert(pieces.drop_last() =~= before);
    assert forall|i: int| 0 <= i < lines.len() implies without_cr(#[trigger] before[i])
        == lines[i] by {
        assert(before[i] == split_of(text, '\n')[i]);
    }
    assert(pieces.drop_last().map_values(|l: Seq<char>| without_cr(l)) =~= lines);
}

/// The pieces of written lines are the lines, with what is left of their ends.
proof fn lemma_lines_split(lines: Seq<Seq<char>>, cr: bool)
    requires
        forall|i: int|
            0 <= i < lines.len() ==> !(#[trigger] lines[i]).contains('\n') && (lines[i].len() > 0
                ==> lines[i].last() != '\r'),
    ensures
        ({
            let text = ended_lines(lines, line_end(cr));
            &&& text.len() > 0 ==> text.last() == '\n'
            &&& split_of(text, '\n').len() == lines.len() + 1
            &&& forall|i: int|
                0 <= i < lines.len() ==> without_cr(#[trigger] split_of(text, '\n')[i])
                    == lines[i]
        }),
    decreases lines.len(),
{
    let end = line_end(cr);
    if lines.len() > 0 {
        let init = lines.drop_last();
        let last = lines.last();
        assert(lines[lines.len() - 1] == last);
        assert forall|i: int| 0 <= i < init.len() implies !(#[trigger] init[i]).contains('\n') && (
        init[i].len() > 0 ==> init[i].last() != '\r') by {
            assert(init[i] == lines[i]);
        }
        lemma_lines_split(init, cr);
        let before = ended_lines(init, end);
        let whole = if cr {
            last.push('\r')
        } else {
            last
        };
        assert(!whole.contains('\n')) by {
            if whole.contains('\n') {
                let k = choose|k: int| 0 <= k < whole.len() && whole[k] == '\n';
                assert(last[k] == '\n');
            }
        }
        lemma_split_whole(whole, '\n');
        let ended = whole.push('\n');
        assert(ended.drop_last() =~= whole);
        assert(split_of(ended, '\n') =~= seq![whole, Seq::<char>::empty()]);
        lemma_split_behind(before, ended, '\n');
        let text = ended_lines(lines, end);
        assert(text =~= before + ended);
        assert(split_of(text, '\n') == split_of(before, '\n').drop_last() + split_of(ended, '\n'));
        assert(without_cr(whole) =~= last) by {
            if cr {
                assert(whole.drop_last() =~= last);
            }
        }
        assert forall|i: int| 0 <= i < lines.len() implies without_cr(
            #[trigger] split_of(text, '\n')[i],
        ) == lines[i] by {
            if i < init.len() {
                assert(split_of(text, '\n')[i] == split_of(before, '\n')[i]);
                assert(without_cr(split_of(before, '\n')[i]) == init[i]);
            } else {
                assert(split_of(text, '\n')[i] == whole);
            }
        }
    }
}

/// What is left of a text without a character at its end is a start of it, does not end in
/// that character, and nothing else was taken off.
pub proof fn lemma_end_char_taken(s: Seq<char>, c: char)
    ensures
        ({
            let left = trim_end_char_of(s, c);
            &&& left.len() <= s.len()
            &&& left == s.take(left.len() as int)
            &&& left.len() > 0 ==> left.last() != c
            &&& forall|i: int| left.len() <= i < s.len() ==> #[trigger] s[i] == c
        }),
    decreases s.len(),
{
    if s.len() > 0 && s.last() == c {
        lemma_end_char_taken(s.drop_last(), c);
        let left = trim_end_char_of(s, c);
        assert(s.drop_last().take(left.len() as int) =~= s.take(left.len() as int));
        assert forall|i: int| left.len() <= i < s.len() implies #[trigger] s[i] == c by {
            if i < s.len() - 1 {
                assert(s.drop_last()[i] == c);
            }
        }
    } else {
        assert(s.take(s.len() as int) =~= s);
    }
}

/// A text begins with another, ends with it or has it where that stands at its start, at its
/// end or anywhere.
pub proof fn lemma_stands(a: Seq<char>, p: Seq<char>, b: Seq<char>, s: Seq<char>)
    ensures
        starts_with_of(p + b, p),
        ends_with_of(a + p, p),
        contains_of(a + p + b, p),
        starts_with_of(s, p) ==> s == p + s.skip(p.len() as int),
        ends_with_of(s, p) ==> s == s.take(s.len() - p.len()) + p,
        contains_of(s, p) ==> exists|i: int|
            0 <= i <= s.len() - p.len() && s == #[trigger] s.take(i) + p + s.skip(i + p.len()),
{
    assert((p + b).take(p.len() as int) =~= p);
    assert((a + p).skip((a + p).len() - p.len()) =~= p);
    assert((a + p + b).subrange(a.len() as int, (a.len() + p.len()) as int) =~= p);
    assert(occurs_at(a + p + b, p, a.len() as int));
    if starts_with_of(s, p) {
        assert(s =~= s.take(p.len() as int) + s.skip(p.len() as int));
    }
    if ends_with_of(s, p) {
        assert(s =~= s.take(s.len() - p.len()) + s.skip(s.len() - p.len()));
    }
    if contains_of(s, p) {
        let i = choose|i: int| occurs_at(s, p, i);
        assert(s =~= s.take(i) + s.subrange(i, i + p.len()) + s.skip(i + p.len()));
    }
}

/// White space before a text that begins with none is what is trimmed, and is its indent.
pub proof fn lemma_indent_told(space: Seq<char>, text: Seq<char>)
    requires
        forall|i: int| 0 <= i < space.len() ==> is_space(#[trigger] space[i]),
        text.len() > 0,
        !is_space(text[0]),
    ensures
        trim_start_of(space + text) == text,
        indent_of(space + text) == space,
        first_non_space(space + text) == byte_len(space),
    decreases space.len(),
{
    let s = space + text;
    if space.len() == 0 {
        assert(s =~= text);
        assert(s.take(0) =~= space);
    } else {
        let rest = space.skip(1);
        assert(is_space(space[0]));
        assert forall|i: int| 0 <= i < rest.len() implies is_space(#[trigger] rest[i]) by {
            assert(is_space(space[i + 1]));
        }
        lemma_indent_told(rest, text);
        assert(s.skip(1) =~= rest + text);
        assert(s.take(space.len() as int) =~= space);
    }
}

/// A text that is nothing but white space has no indent.
pub proof fn lemma_blank_told(space: Seq<char>)
    requires
        forall|i: int| 0 <= i < space.len() ==> is_space(#[trigger] space[i]),
    ensures
        trim_start_of(space).len() == 0,
        indent_of(space).len() == 0,
        first_non_space(space) == 0,
    decreases space.len(),
{
    if space.len() > 0 {
        let rest = space.skip(1);
        assert(is_space(space[0]));
        assert forall|i: int| 0 <= i < rest.len() implies is_space(#[trigger] rest[i]) by {
            assert(is_space(space[i + 1]));
        }
        lemma_blank_told(rest);
    }
}

/// A number of 64 bits is read as it is written, and nothing but digits is a number.
pub proof fn lemma_number_read(n: u64, s: Seq<char>)
    ensures
        number_of(decimal_of(n as nat)) == Some(n),
        number_of(s) is Some ==> s.len() > 0 && forall|i: int|
            0 <= i < s.len() ==> '0' <= #[trigger] s[i] <= '9',
{
    lemma_decimal_value(n as nat);
}

/// A negative number is written with a sign before the digits of its opposite.
pub proof fn lemma_signed_told(n: int)
    ensures
        n >= 0 ==> signed_decimal_of(n) == decimal_of(n as nat),
        n < 0 ==> signed_decimal_of(n)[0] == '-' && signed_decimal_of(n).skip(1) == decimal_of(
            (-n) as nat,
        ),
{
    if n < 0 {
        assert(signed_decimal_of(n).skip(1) =~= decimal_of((-n) as nat));
    }
}

/// Nothing is replaced where nothing stands that could be.
pub proof fn lemma_replace_none(s: Seq<char>, from: Seq<char>, to: Seq<char>)
    requires
        forall|i: int| !#[trigger] occurs_at(s, from, i),
    ensures
        replace_of(s, from, to) == s,
{
    lemma_first_from(s, from, 0);
}

/// What stands first is replaced, and then what stands behind it.
pub proof fn lemma_replace_first(a: Seq<char>, from: Seq<char>, b: Seq<char>, to: Seq<char>)
    requires
        from.len() > 0,
        forall|i: int| 0 <= i < a.len() ==> !#[trigger] occurs_at(a + from + b, from, i),
    ensures
        replace_of(a + from + b, from, to) == a + to + replace_of(b, from, to),
{
    let s = a + from + b;
    assert(s.subrange(a.len() as int, (a.len() + from.len()) as int) =~= from);
    assert(occurs_at(s, from, a.len() as int));
    lemma_first_from(s, from, 0);
    assert(s.take(a.len() as int) =~= a);
    assert(s.skip((a.len() + from.len()) as int) =~= b);
}

/// Of the characters of the first 128 these are white space, and none behind the last.
pub proof fn lemma_space_told(c: char)
    ensures
        c <= '\u{7f}' ==> (is_space(c) <==> c == ' ' || '\t' <= c <= '\r'),
        c > '\u{3000}' ==> !is_space(c),
{
}

} // verus!
