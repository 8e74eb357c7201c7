//! Texts as sequences of characters: equality, white space, cutting and joining.

use vstd::prelude::*;
use vstd::string::*;
use vstd::utf8::*;

verus! {

/// `String::push` appends one character.
pub assume_specification[ String::push ](s: &mut String, ch: char)
    ensures
        final(s)@ == old(s)@.push(ch),
;

/// What `String::from_utf8_lossy` reads bytes as.
pub uninterp spec fn lossy_text(bytes: Seq<u8>) -> Seq<char>;

/// `String::from_utf8_lossy`: bytes that are UTF-8 are decoded; in others every
/// malformed stretch is replaced, which makes the text `lossy_text` of the bytes.
#[verifier::external_body]
fn read_lossy(bytes: &[u8]) -> (s: String)
    ensures
        s@ == lossy_text(bytes@),
        valid_utf8(bytes@) ==> s@ == decode_utf8(bytes@),
{
    String::from_utf8_lossy(bytes).into_owned()
}

/// The text that a program's output stands for: what it encodes as UTF-8, or
/// with its malformed stretches replaced.
pub open spec fn output_text(bytes: Seq<u8>) -> Seq<char> {
    if valid_utf8(bytes) {
        decode_utf8(bytes)
    } else {
        lossy_text(bytes)
    }
}

/// Two pieces of UTF-8, one after the other, stand for the text of the one and then
/// that of the other.
pub proof fn lemma_decode_concat(a: Seq<u8>, b: Seq<u8>)
    requires
        valid_utf8(a),
        valid_utf8(b),
    ensures
        valid_utf8(a + b),
        decode_utf8(a + b) == decode_utf8(a) + decode_utf8(b),
    decreases a.len(),
{
    if a.len() == 0 {
        assert(a + b =~= b);
        assert(decode_utf8(a) + decode_utf8(b) =~= decode_utf8(b));
    } else {
        let rest = pop_first_scalar(a);
        lemma_decode_concat(rest, b);
        assert(pop_first_scalar(a + b) =~= rest + b);
        assert(decode_utf8(a + b) =~= decode_utf8(a) + decode_utf8(b));
    }
}

/// The byte of a line end stands for a line end.
pub proof fn lemma_decode_line_end()
    ensures
        valid_utf8(seq![10u8]),
        decode_utf8(seq![10u8]) == seq!['\n'],
{
    let bytes = seq![10u8];
    assert(10u8 & 0x7f == 10u8) by (bit_vector);
    assert(decode_first_codepoint(bytes) == 10);
    assert(valid_first_scalar(bytes));
    assert(pop_first_scalar(bytes) =~= Seq::empty());
    assert(valid_utf8(pop_first_scalar(bytes)));
    assert(decode_utf8(pop_first_scalar(bytes)) =~= Seq::empty());
    assert(decode_utf8(bytes) =~= seq!['\n']);
}

/// Reads a program's output as text.
pub fn read_output(bytes: &[u8]) -> (s: String)
    ensures
        s@ == output_text(bytes@),
        valid_utf8(bytes@) ==> s@ == decode_utf8(bytes@),
        !valid_utf8(bytes@) ==> s@ == lossy_text(bytes@),
{
    read_lossy(bytes)
}

/// The characters of a text.
pub fn chars_of(s: &str) -> (v: Vec<char>)
    ensures
        v@ == s@,
{
    let mut v: Vec<char> = Vec::new();
    for c in it: s.chars()
        invariant
            v@ == it.seq().take(it.index() as int),
            it.seq() == s@,
    {
        v.push(c);
        assert(v@ =~= it.seq().take(it.index() + 1));
    }
    v
}

/// The text made of the characters `v[from..to]`.
pub fn text_of(v: &Vec<char>, from: usize, to: usize) -> (s: String)
    requires
        from <= to <= v@.len(),
    ensures
        s@ == v@.subrange(from as int, to as int),
{
    let mut s = String::new();
    let mut i: usize = from;
    while i < to
        invariant
            from <= i <= to <= v@.len(),
            s@ == v@.subrange(from as int, i as int),
        decreases to - i,
    {
        s.push(v[i]);
        assert(s@ =~= v@.subrange(from as int, i + 1));
        i += 1;
    }
    s
}

/// Whether two texts are equal.
pub fn same_text(a: &str, b: &str) -> (r: bool)
    ensures
        r == (a@ == b@),
{
    let x = a.as_bytes();
    let y = b.as_bytes();
    proof {
        encode_utf8_decode_utf8(a@);
        encode_utf8_decode_utf8(b@);
    }
    if x.len() != y.len() {
        return false;
    }
    let mut i: usize = 0;
    while i < x.len()
        invariant
            x@.len() == y@.len(),
            x@ == encode_utf8(a@),
            y@ == encode_utf8(b@),
            i <= x@.len(),
            forall|j: int| 0 <= j < i ==> x@[j] == y@[j],
        decreases x@.len() - i,
    {
        if x[i] != y[i] {
            return false;
        }
        i += 1;
    }
    assert(x@ =~= y@);
    true
}

/// Whether the text begins with `prefix`.
pub fn begins_with(v: &Vec<char>, prefix: &Vec<char>) -> (r: bool)
    ensures
        r == prefix@.is_prefix_of(v@),
{
    if prefix.len() > v.len() {
        return false;
    }
    let mut i: usize = 0;
    while i < prefix.len()
        invariant
            prefix@.len() <= v@.len(),
            i <= prefix@.len(),
            forall|j: int| 0 <= j < i ==> v@[j] == prefix@[j],
        decreases prefix@.len() - i,
    {
        if v[i] != prefix[i] {
            assert(v@.subrange(0, prefix@.len() as int)[i as int] != prefix@[i as int]);
            return false;
        }
        i += 1;
    }
    assert(v@.subrange(0, prefix@.len() as int) =~= prefix@);
    true
}

/// Whether the text ends with `suffix`.
pub fn ends_with(v: &Vec<char>, suffix: &Vec<char>) -> (r: bool)
    ensures
        r == suffix@.is_suffix_of(v@),
{
    if suffix.len() > v.len() {
        return false;
    }
    let from: usize = v.len() - suffix.len();
    let mut i: usize = 0;
    while i < suffix.len()
        invariant
            from + suffix.len() == v.len(),
            i <= suffix@.len(),
            forall|j: int| 0 <= j < i ==> v@[from + j] == suffix@[j],
        decreases suffix@.len() - i,
    {
        if v[from + i] != suffix[i] {
            assert(v@.subrange(from as int, v@.len() as int)[i as int] != suffix@[i as int]);
            return false;
        }
        i += 1;
    }
    assert(v@.subrange(from as int, v@.len() as int) =~= suffix@);
    true
}

/// Unicode's `White_Space` characters.
pub open spec fn is_white_space(c: char) -> bool {
    let n = c as u32;
    ||| 0x09 <= n <= 0x0d
    ||| n == 0x20
    ||| n == 0x85
    ||| n == 0xa0
    ||| n == 0x1680
    ||| 0x2000 <= n <= 0x200a
    ||| n == 0x2028
    ||| n == 0x2029
    ||| n == 0x202f
    ||| n == 0x205f
    ||| n == 0x3000
}

/// Whether a character is white space.
pub fn white_space(c: char) -> (r: bool)
    ensures
        r == is_white_space(c),
{
    let n = c as u32;
    (0x09 <= n && n <= 0x0d) || n == 0x20 || n == 0x85 || n == 0xa0 || n == 0x1680 || (0x2000 <= n
        && n <= 0x200a) || n == 0x2028 || n == 0x2029 || n == 0x202f || n == 0x205f || n == 0x3000
}

/// A text without its leading white space.
pub open spec fn trimmed_start(s: Seq<char>) -> Seq<char>
    decreases s.len(),
{
    if s.len() > 0 && is_white_space(s[0]) {
        trimmed_start(s.drop_first())
    } else {
        s
    }
}

/// A text without its trailing white space.
pub open spec fn trimmed_end(s: Seq<char>) -> Seq<char>
    decreases s.len(),
{
    if s.len() > 0 && is_white_space(s.last()) {
        trimmed_end(s.drop_last())
    } else {
        s
    }
}

/// A text without the white space around it.
pub open spec fn trimmed(s: Seq<char>) -> Seq<char> {
    trimmed_end(trimmed_start(s))
}

proof fn lemma_trimmed_start(s: Seq<char>)
    ensures
        trimmed_start(s).len() > 0 ==> !is_white_space(trimmed_start(s)[0]),
        forall|c: char| trimmed_start(s).contains(c) ==> s.contains(c),
    decreases s.len(),
{
    if s.len() > 0 && is_white_space(s[0]) {
        let rest = s.drop_first();
        lemma_trimmed_start(rest);
        assert forall|c: char| rest.contains(c) implies s.contains(c) by {
            let i = choose|i: int| 0 <= i < rest.len() && rest[i] == c;
            assert(s[i + 1] == c);
        }
    }
}

proof fn lemma_trimmed_end(s: Seq<char>)
    ensures
        trimmed_end(s).len() > 0 ==> trimmed_end(s)[0] == s[0],
        forall|c: char| trimmed_end(s).contains(c) ==> s.contains(c),
    decreases s.len(),
{
    if s.len() > 0 && is_white_space(s.last()) {
        let rest = s.drop_last();
        lemma_trimmed_end(rest);
        assert forall|c: char| rest.contains(c) implies s.contains(c) by {
            let i = choose|i: int| 0 <= i < rest.len() && rest[i] == c;
            assert(s[i] == c);
        }
    }
}

/// What is left of a trimmed text does not begin with white space, and every
/// character of it was there before.
pub proof fn lemma_trimmed(s: Seq<char>)
    ensures
        trimmed(s).len() > 0 ==> !is_white_space(trimmed(s)[0]),
        forall|c: char| trimmed(s).contains(c) ==> s.contains(c),
{
    lemma_trimmed_start(s);
    lemma_trimmed_end(trimmed_start(s));
}

/// Drops the white space around a text.
pub fn trim(v: &Vec<char>) -> (r: Vec<char>)
    ensures
        r@ == trimmed(v@),
{
    let mut from: usize = 0;
    assert(v@.subrange(0, v@.len() as int) =~= v@);
    while from < v.len() && white_space(v[from])
        invariant
            from <= v@.len(),
            trimmed_start(v@.subrange(from as int, v@.len() as int)) == trimmed_start(v@),
        decreases v@.len() - from,
    {
        assert(v@.subrange(from as int, v@.len() as int).drop_first() =~= v@.subrange(
            from + 1,
            v@.len() as int,
        ));
        from += 1;
    }
    let ghost rest = v@.subrange(from as int, v@.len() as int);
    assert(trimmed_start(v@) == rest);
    let mut to: usize = v.len();
    while to > from && white_space(v[to - 1])
        invariant
            from <= to <= v@.len(),
            trimmed_end(v@.subrange(from as int, to as int)) == trimmed_end(rest),
        decreases to,
    {
        assert(v@.subrange(from as int, to as int).drop_last() =~= v@.subrange(
            from as int,
            to - 1,
        ));
        to -= 1;
    }
    slice_of(v, from, to)
}

/// The characters `v[from..to]`.
pub fn slice_of(v: &Vec<char>, from: usize, to: usize) -> (r: Vec<char>)
    requires
        from <= to <= v@.len(),
    ensures
        r@ == v@.subrange(from as int, to as int),
{
    let mut r: Vec<char> = Vec::new();
    let mut i: usize = from;
    while i < to
        invariant
            from <= i <= to <= v@.len(),
            r@ == v@.subrange(from as int, i as int),
        decreases to - i,
    {
        r.push(v[i]);
        assert(r@ =~= v@.subrange(from as int, i + 1));
        i += 1;
    }
    r
}

/// The pieces of a text between the occurrences of `mark`: one more than there
/// are occurrences.
pub open spec fn pieces(s: Seq<char>, mark: char) -> Seq<Seq<char>>
    decreases s.len(),
{
    if s.len() == 0 {
        seq![Seq::empty()]
    } else {
        let before = pieces(s.drop_last(), mark);
        if s.last() == mark {
            before.push(Seq::empty())
        } else {
            before.drop_last().push(before.last().push(s.last()))
        }
    }
}

/// There is always a piece.
pub proof fn lemma_pieces_not_empty(s: Seq<char>, mark: char)
    ensures
        pieces(s, mark).len() > 0,
    decreases s.len(),
{
    if s.len() > 0 {
        lemma_pieces_not_empty(s.drop_last(), mark);
    }
}

/// A text without `mark` is one piece.
pub proof fn lemma_pieces_whole(s: Seq<char>, mark: char)
    requires
        !s.contains(mark),
    ensures
        pieces(s, mark) == seq![s],
    decreases s.len(),
{
    if s.len() == 0 {
        assert(s =~= Seq::empty());
    } else {
        let front = s.drop_last();
        assert(forall|i: int| 0 <= i < front.len() ==> front[i] == s[i]);
        lemma_pieces_whole(front, mark);
        assert(s.contains(s.last()));
        assert(front.push(s.last()) =~= s);
        assert(seq![front].drop_last().push(s) =~= seq![s]);
    }
}

/// The pieces of two texts joined by `mark` are the pieces of the one and then
/// the pieces of the other.
pub proof fn lemma_pieces_join(a: Seq<char>, mark: char, b: Seq<char>)
    ensures
        pieces(a.push(mark) + b, mark) == pieces(a, mark) + pieces(b, mark),
    decreases b.len(),
{
    let whole = a.push(mark) + b;
    if b.len() == 0 {
        assert(whole.drop_last() =~= a);
        assert(pieces(whole, mark) =~= pieces(a, mark) + pieces(b, mark));
    } else {
        lemma_pieces_join(a, mark, b.drop_last());
        lemma_pieces_not_empty(b.drop_last(), mark);
        assert(whole.drop_last() =~= a.push(mark) + b.drop_last());
        let front = pieces(a, mark);
        let before = pieces(b.drop_last(), mark);
        assert((front + before).last() == before.last());
        assert((front + before).drop_last() =~= front + before.drop_last());
        assert(pieces(whole, mark) =~= front + pieces(b, mark));
    }
}

/// No piece holds the mark.
pub proof fn lemma_pieces_free_of_mark(s: Seq<char>, mark: char, i: int)
    requires
        0 <= i < pieces(s, mark).len(),
    ensures
        !pieces(s, mark)[i].contains(mark),
    decreases s.len(),
{
    if s.len() > 0 {
        let before = pieces(s.drop_last(), mark);
        lemma_pieces_not_empty(s.drop_last(), mark);
        if i < before.len() {
            lemma_pieces_free_of_mark(s.drop_last(), mark, i);
        }
        let piece = pieces(s, mark)[i];
        if piece.contains(mark) {
            let j = choose|j: int| 0 <= j < piece.len() && piece[j] == mark;
            if s.last() != mark && i == before.len() - 1 {
                assert(piece == before.last().push(s.last()));
                assert(before[i][j] == mark);
            }
        }
    }
}

/// The contents of a list of character lists.
pub open spec fn texts(v: Seq<Vec<char>>) -> Seq<Seq<char>> {
    Seq::new(v.len(), |i: int| v[i]@)
}

/// The contents of a list of strings.
pub open spec fn strings(v: Seq<String>) -> Seq<Seq<char>> {
    Seq::new(v.len(), |i: int| v[i]@)
}

/// Cuts a text at every occurrence of `mark`.
pub fn cut(v: &Vec<char>, mark: char) -> (r: Vec<Vec<char>>)
    ensures
        texts(r@) == pieces(v@, mark),
{
    let mut done: Vec<Vec<char>> = Vec::new();
    let mut piece: Vec<char> = Vec::new();
    let mut i: usize = 0;
    assert(v@.take(0) =~= Seq::empty());
    assert(texts(done@).push(piece@) =~= pieces(v@.take(0), mark));
    while i < v.len()
        invariant
            i <= v@.len(),
            texts(done@).push(piece@) == pieces(v@.take(i as int), mark),
        decreases v@.len() - i,
    {
        let ghost so_far = texts(done@);
        let ghost before = pieces(v@.take(i as int), mark);
        assert(v@.take(i + 1).drop_last() =~= v@.take(i as int));
        assert(before.drop_last() =~= so_far);
        if v[i] == mark {
            done.push(piece);
            piece = Vec::new();
            assert(texts(done@) =~= before);
        } else {
            piece.push(v[i]);
        }
        assert(texts(done@).push(piece@) =~= pieces(v@.take(i + 1), mark));
        i += 1;
    }
    assert(v@.take(v@.len() as int) =~= v@);
    done.push(piece);
    assert(texts(done@) =~= pieces(v@, mark));
    done
}

/// The first position of `mark`, or the length where it does not occur.
pub open spec fn first_position(s: Seq<char>, mark: char) -> int
    decreases s.len(),
{
    if s.len() == 0 || s[0] == mark {
        0
    } else {
        1 + first_position(s.drop_first(), mark)
    }
}

/// What comes before the first `mark`: all of the text where it does not occur.
pub open spec fn before_first(s: Seq<char>, mark: char) -> Seq<char> {
    s.take(first_position(s, mark))
}

/// What comes after the first `mark`, where it occurs.
pub open spec fn after_first(s: Seq<char>, mark: char) -> Option<Seq<char>> {
    let at = first_position(s, mark);
    if at < s.len() {
        Some(s.skip(at + 1))
    } else {
        None
    }
}

proof fn lemma_first_position_bounds(s: Seq<char>, mark: char)
    ensures
        0 <= first_position(s, mark) <= s.len(),
    decreases s.len(),
{
    if s.len() > 0 && s[0] != mark {
        lemma_first_position_bounds(s.drop_first(), mark);
    }
}

/// What the first `mark` parts holds no other characters than the text, and what
/// comes before it is not empty unless the text begins with it.
pub proof fn lemma_first_mark_within(s: Seq<char>, mark: char)
    ensures
        forall|c: char| before_first(s, mark).contains(c) ==> s.contains(c),
        after_first(s, mark) matches Some(rest) ==> forall|c: char|
            rest.contains(c) ==> s.contains(c),
        s.len() > 0 && s[0] != mark ==> before_first(s, mark).len() > 0 && before_first(s, mark)[0]
            == s[0],
{
    lemma_first_position_bounds(s, mark);
    let at = first_position(s, mark);
    let head = before_first(s, mark);
    assert forall|c: char| head.contains(c) implies s.contains(c) by {
        let i = choose|i: int| 0 <= i < head.len() && head[i] == c;
        assert(s[i] == c);
    }
    if at < s.len() {
        let rest = s.skip(at + 1);
        assert forall|c: char| rest.contains(c) implies s.contains(c) by {
            let i = choose|i: int| 0 <= i < rest.len() && rest[i] == c;
            assert(s[at + 1 + i] == c);
        }
    }
    if s.len() > 0 && s[0] != mark {
        lemma_first_position_bounds(s.drop_first(), mark);
    }
}

/// A text without `mark`, then `mark` and another text: the first `mark` parts
/// the two.
pub proof fn lemma_first_mark_parts(head: Seq<char>, mark: char, tail: Seq<char>)
    requires
        !head.contains(mark),
    ensures
        before_first(head.push(mark) + tail, mark) == head,
        after_first(head.push(mark) + tail, mark) == Some(tail),
{
    let whole = head.push(mark) + tail;
    lemma_first_position_at(head, mark, tail);
    assert(whole.take(head.len() as int) =~= head);
    assert(whole.skip(head.len() as int + 1) =~= tail);
}

proof fn lemma_first_position_at(head: Seq<char>, mark: char, tail: Seq<char>)
    requires
        !head.contains(mark),
    ensures
        first_position(head.push(mark) + tail, mark) == head.len(),
    decreases head.len(),
{
    let whole = head.push(mark) + tail;
    if head.len() > 0 {
        assert(head.contains(head[0]));
        let rest = head.drop_first();
        assert(forall|i: int| 0 <= i < rest.len() ==> rest[i] == head[i + 1]);
        assert(whole.drop_first() =~= rest.push(mark) + tail);
        lemma_first_position_at(rest, mark, tail);
    }
}

/// A text without `mark` has nothing after one.
pub proof fn lemma_no_mark(s: Seq<char>, mark: char)
    requires
        !s.contains(mark),
    ensures
        before_first(s, mark) == s,
        after_first(s, mark) is None,
    decreases s.len(),
{
    if s.len() > 0 {
        assert(s.contains(s[0]));
        let rest = s.drop_first();
        assert(forall|i: int| 0 <= i < rest.len() ==> rest[i] == s[i + 1]);
        lemma_no_mark(rest, mark);
        lemma_first_position_bounds(rest, mark);
        assert(first_position(rest, mark) == rest.len());
    }
    assert(s.take(s.len() as int) =~= s);
}

/// The last position of `mark`, or -1 where it does not occur.
pub open spec fn last_position(s: Seq<char>, mark: char) -> int
    decreases s.len(),
{
    if s.len() == 0 {
        -1
    } else if s.last() == mark {
        s.len() - 1
    } else {
        last_position(s.drop_last(), mark)
    }
}

/// Nothing behind the last `mark`, and the mark is there.
pub proof fn lemma_last_position_of_tail(front: Seq<char>, mark: char, tail: Seq<char>)
    requires
        !tail.contains(mark),
    ensures
        last_position(front.push(mark) + tail, mark) == front.len(),
    decreases tail.len(),
{
    let whole = front.push(mark) + tail;
    if tail.len() == 0 {
        assert(whole =~= front.push(mark));
    } else {
        let shorter = tail.drop_last();
        assert(forall|i: int| 0 <= i < shorter.len() ==> shorter[i] == tail[i]);
        assert(whole.drop_last() =~= front.push(mark) + shorter);
        assert(tail.contains(tail.last()));
        lemma_last_position_of_tail(front, mark, shorter);
    }
}

/// Finds the last occurrence of `mark`.
pub fn find_last(v: &Vec<char>, mark: char) -> (r: Option<usize>)
    ensures
        match r {
            Some(at) => at < v.len() && last_position(v@, mark) == at,
            None => last_position(v@, mark) == -1,
        },
{
    let mut end: usize = v.len();
    assert(v@.take(v@.len() as int) =~= v@);
    while end > 0
        invariant
            end <= v@.len(),
            last_position(v@, mark) == last_position(v@.take(end as int), mark),
        decreases end,
    {
        assert(v@.take(end as int).drop_last() =~= v@.take(end - 1));
        if v[end - 1] == mark {
            return Some(end - 1);
        }
        end -= 1;
    }
    None
}

/// Cuts a text at the first occurrence of `mark`.
pub fn cut_first(v: &Vec<char>, mark: char) -> (r: (Vec<char>, Option<Vec<char>>))
    ensures
        r.0@ == before_first(v@, mark),
        match r.1 {
            Some(rest) => after_first(v@, mark) == Some(rest@),
            None => after_first(v@, mark) is None,
        },
{
    let mut at: usize = 0;
    assert(v@.skip(0) =~= v@);
    proof {
        lemma_first_position_bounds(v@, mark);
    }
    while at < v.len() && v[at] != mark
        invariant
            at <= v@.len(),
            first_position(v@, mark) == at + first_position(v@.skip(at as int), mark),
        decreases v@.len() - at,
    {
        assert(v@.skip(at as int).drop_first() =~= v@.skip(at + 1));
        at += 1;
    }
    assert(first_position(v@, mark) == at);
    let head = slice_of(v, 0, at);
    assert(head@ =~= v@.take(at as int));
    if at < v.len() {
        let rest = slice_of(v, at + 1, v.len());
        assert(rest@ =~= v@.skip(at + 1));
        (head, Some(rest))
    } else {
        (head, None)
    }
}

/// Output that holds a text as UTF-8 stands for that text.
pub proof fn law_encoded_text_reads_back(text: Seq<char>)
    ensures
        output_text(encode_utf8(text)) == text,
{
    encode_utf8_valid_utf8(text);
    encode_utf8_decode_utf8(text);
}

proof fn lemma_trimmed_start_at(s: Seq<char>) -> (from: int)
    ensures
        0 <= from <= s.len(),
        trimmed_start(s) == s.skip(from),
        forall|i: int| 0 <= i < from ==> is_white_space(#[trigger] s[i]),
        from < s.len() ==> !is_white_space(s[from]),
    decreases s.len(),
{
    if s.len() > 0 && is_white_space(s[0]) {
        let rest = s.drop_first();
        let from = lemma_trimmed_start_at(rest);
        assert(rest.skip(from) =~= s.skip(from + 1));
        assert forall|i: int| 0 <= i < from + 1 implies is_white_space(#[trigger] s[i]) by {
            if i > 0 {
                assert(rest[i - 1] == s[i]);
            }
        }
        if from < rest.len() {
            assert(rest[from] == s[from + 1]);
        }
        from + 1
    } else {
        assert(s.skip(0) =~= s);
        0
    }
}

proof fn lemma_trimmed_end_at(s: Seq<char>) -> (to: int)
    ensures
        0 <= to <= s.len(),
        trimmed_end(s) == s.take(to),
        forall|i: int| to <= i < s.len() ==> is_white_space(#[trigger] s[i]),
        to > 0 ==> !is_white_space(s[to - 1]),
    decreases s.len(),
{
    if s.len() > 0 && is_white_space(s.last()) {
        let rest = s.drop_last();
        let to = lemma_trimmed_end_at(rest);
        assert(rest.take(to) =~= s.take(to));
        assert forall|i: int| to <= i < s.len() implies is_white_space(#[trigger] s[i]) by {
            if i < rest.len() {
                assert(rest[i] == s[i]);
            }
        }
        if to > 0 {
            assert(rest[to - 1] == s[to - 1]);
        }
        to
    } else {
        assert(s.take(s.len() as int) =~= s);
        s.len() as int
    }
}

/// A trimmed text is a stretch of the text: all around it is white space, and it
/// neither begins nor ends with any.
pub proof fn law_trimmed_is_what_white_space_surrounds(s: Seq<char>)
    ensures
        exists|from: int, to: int|
            {
                &&& 0 <= from <= to <= s.len()
                &&& trimmed(s) == #[trigger] s.subrange(from, to)
                &&& forall|i: int|
                    0 <= i < from || to <= i < s.len() ==> is_white_space(#[trigger] s[i])
                &&& from < to ==> !is_white_space(s[from]) && !is_white_space(s[to - 1])
            },
{
    let from = lemma_trimmed_start_at(s);
    let rest = s.skip(from);
    let length = lemma_trimmed_end_at(rest);
    let to = from + length;
    assert(rest.take(length) =~= s.subrange(from, to));
    assert forall|i: int| 0 <= i < from || to <= i < s.len() implies is_white_space(
        #[trigger] s[i],
    ) by {
        if i >= to {
            assert(rest[i - from] == s[i]);
        }
    }
    if from < to {
        assert(rest[length - 1] == s[to - 1]);
        assert(from < s.len());
    }
}

/// A text comes apart at its marks: one without the mark is its only piece, and
/// two texts with the mark between them have the pieces of the one and then those
/// of the other.
pub proof fn law_pieces_lie_between_marks(a: Seq<char>, mark: char, b: Seq<char>)
    ensures
        !a.contains(mark) ==> pieces(a, mark) == seq![a],
        pieces(a.push(mark) + b, mark) == pieces(a, mark) + pieces(b, mark),
{
    if !a.contains(mark) {
        lemma_pieces_whole(a, mark);
    }
    lemma_pieces_join(a, mark, b);
}

/// The first mark parts a text into what stands before it and what stands behind
/// it; a text without the mark stands before it whole.
pub proof fn law_first_mark_parts_a_text(head: Seq<char>, mark: char, tail: Seq<char>)
    requires
        !head.contains(mark),
    ensures
        before_first(head.push(mark) + tail, mark) == head,
        after_first(head.push(mark) + tail, mark) == Some(tail),
        before_first(head, mark) == head,
        after_first(head, mark) is None,
{
    lemma_first_mark_parts(head, mark, tail);
    lemma_no_mark(head, mark);
}

/// The last position of a mark is where it stands with none behind it, and -1 in a
/// text without it.
pub proof fn law_last_position_has_no_mark_behind(front: Seq<char>, mark: char, tail: Seq<char>)
    requires
        !tail.contains(mark),
    ensures
        last_position(front.push(mark) + tail, mark) == front.len(),
        last_position(tail, mark) == -1,
    decreases tail.len(),
{
    lemma_last_position_of_tail(front, mark, tail);
    if tail.len() > 0 {
        let shorter = tail.drop_last();
        assert(tail.contains(tail.last()));
        assert(forall|i: int| 0 <= i < shorter.len() ==> shorter[i] == tail[i]);
        law_last_position_has_no_mark_behind(front, mark, shorter);
    }
}

/// A list of strings, or of character lists, holds their contents one by one.
pub proof fn law_lists_hold_their_texts(v: Seq<String>, w: Seq<Vec<char>>)
    ensures
        strings(v).len() == v.len(),
        forall|i: int| 0 <= i < v.len() ==> #[trigger] strings(v)[i] == v[i]@,
        texts(w).len() == w.len(),
        forall|i: int| 0 <= i < w.len() ==> #[trigger] texts(w)[i] == w[i]@,
{
}

/// A mark stands at its last position.
pub proof fn lemma_last_position_is_a_mark(s: Seq<char>, mark: char)
    ensures
        -1 <= last_position(s, mark) < s.len(),
        last_position(s, mark) >= 0 ==> s[last_position(s, mark)] == mark,
    decreases s.len(),
{
    if s.len() > 0 && s.last() != mark {
        lemma_last_position_is_a_mark(s.drop_last(), mark);
    }
}

/// What is left of a trimmed text does not end with white space.
pub proof fn lemma_trimmed_last(s: Seq<char>)
    ensures
        trimmed(s).len() > 0 ==> !is_white_space(trimmed(s).last()),
{
    let to = lemma_trimmed_end_at(trimmed_start(s));
}

} // verus!
