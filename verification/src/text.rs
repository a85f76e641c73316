//! Searching, splitting, trimming and reading numbers out of text.
//!
//! Every function speaks of a string as the sequence of its characters.
use vstd::prelude::*;
use vstd::string::*;
use vstd::utf8::*;

verus! {

/// The code points that Unicode gives the property `White_Space`.
pub open spec fn is_white_space(c: char) -> bool {
    ||| '\u{9}' <= c <= '\u{d}'
    ||| c == '\u{20}'
    ||| c == '\u{85}'
    ||| c == '\u{a0}'
    ||| c == '\u{1680}'
    ||| '\u{2000}' <= c <= '\u{200a}'
    ||| c == '\u{2028}'
    ||| c == '\u{2029}'
    ||| c == '\u{202f}'
    ||| c == '\u{205f}'
    ||| c == '\u{3000}'
}

/// Trusted: `char::is_whitespace` answers whether the character has the Unicode property
/// `White_Space`.
pub assume_specification[ char::is_whitespace ](c: char) -> (r: bool)
    ensures
        r == is_white_space(c),
;

/// Where `c` first stands in `s`, or the length of `s` when it stands nowhere.
pub open spec fn first_index(s: Seq<char>, c: char) -> int
    decreases s.len(),
{
    if s.len() == 0 || s[0] == c {
        0
    } else {
        1 + first_index(s.drop_first(), c)
    }
}

/// `s` cut at the first `c`: what stands before it and what stands after it.
pub open spec fn cut(s: Seq<char>, c: char) -> Option<(Seq<char>, Seq<char>)> {
    if s.contains(c) {
        Some((s.take(first_index(s, c)), s.skip(first_index(s, c) + 1)))
    } else {
        None
    }
}

/// The pieces of `s` between the separators `c`; a string without `c` is one piece.
pub open spec fn pieces(s: Seq<char>, c: char) -> Seq<Seq<char>>
    decreases s.len(),
{
    if 0 <= first_index(s, c) < s.len() {
        seq![s.take(first_index(s, c))] + pieces(s.skip(first_index(s, c) + 1), c)
    } else {
        seq![s]
    }
}

/// `s` without its leading white space.
pub open spec fn trimmed_front(s: Seq<char>) -> Seq<char>
    decreases s.len(),
{
    if s.len() > 0 && is_white_space(s[0]) {
        trimmed_front(s.drop_first())
    } else {
        s
    }
}

/// `s` without its trailing white space.
pub open spec fn trimmed_back(s: Seq<char>) -> Seq<char>
    decreases s.len(),
{
    if s.len() > 0 && is_white_space(s.last()) {
        trimmed_back(s.drop_last())
    } else {
        s
    }
}

/// `s` without its leading and trailing white space.
pub open spec fn trimmed(s: Seq<char>) -> Seq<char> {
    trimmed_back(trimmed_front(s))
}

/// `s` with every `from` turned into `to`.
pub open spec fn replaced(s: Seq<char>, from: char, to: char) -> Seq<char> {
    s.map_values(
        |c: char|
            if c == from {
                to
            } else {
                c
            },
    )
}

/// The pieces with one `c` between each and the next.
pub open spec fn joined(parts: Seq<Seq<char>>, c: char) -> Seq<char>
    decreases parts.len(),
{
    if parts.len() == 0 {
        seq![]
    } else if parts.len() == 1 {
        parts[0]
    } else {
        joined(parts.drop_last(), c) + seq![c] + parts.last()
    }
}

/// `s` is one or more of the digits `0` to `9`.
pub open spec fn is_digits(s: Seq<char>) -> bool {
    &&& s.len() > 0
    &&& forall|i: int| 0 <= i < s.len() ==> '0' <= #[trigger] s[i] <= '9'
}

/// The number that a sequence of decimal digits writes.
pub open spec fn digits_value(s: Seq<char>) -> nat
    decreases s.len(),
{
    if s.len() == 0 {
        0
    } else {
        digits_value(s.drop_last()) * 10 + (s.last() as nat - '0' as nat) as nat
    }
}

/// The number that `s` writes: decimal digits, with or without one `+` in front.
pub open spec fn unsigned_value(s: Seq<char>) -> Option<nat> {
    let digits = if s.len() > 0 && s[0] == '+' {
        s.drop_first()
    } else {
        s
    };
    if is_digits(digits) {
        Some(digits_value(digits))
    } else {
        None
    }
}

/// `first_index` points at the first occurrence, if there is one.
pub proof fn lemma_first_index(s: Seq<char>, c: char)
    ensures
        0 <= first_index(s, c) <= s.len(),
        forall|i: int| 0 <= i < first_index(s, c) ==> #[trigger] s[i] != c,
        first_index(s, c) < s.len() ==> s[first_index(s, c)] == c,
        s.contains(c) <==> first_index(s, c) < s.len(),
    decreases s.len(),
{
    if s.len() == 0 || s[0] == c {
    } else {
        let rest = s.drop_first();
        lemma_first_index(rest, c);
        assert forall|i: int| 0 <= i < first_index(s, c) implies #[trigger] s[i] != c by {
            if i > 0 {
                assert(rest[i - 1] == s[i]);
            }
        }
        if s.contains(c) {
            let i = choose|i: int| 0 <= i < s.len() && s[i] == c;
            assert(rest[i - 1] == c);
        }
        if first_index(rest, c) < rest.len() {
            assert(s[first_index(s, c)] == c);
        }
    }
}

proof fn lemma_first_index_unique(s: Seq<char>, c: char, k: int)
    requires
        0 <= k < s.len(),
        s[k] == c,
        forall|i: int| 0 <= i < k ==> #[trigger] s[i] != c,
    ensures
        first_index(s, c) == k,
        s.contains(c),
{
    lemma_first_index(s, c);
}

proof fn lemma_joined_cons(head: Seq<char>, tail: Seq<Seq<char>>, c: char)
    requires
        tail.len() > 0,
    ensures
        joined(seq![head] + tail, c) == head + seq![c] + joined(tail, c),
    decreases tail.len(),
{
    let all = seq![head] + tail;
    assert(all.drop_last() == seq![head] + tail.drop_last());
    assert(all.last() == tail.last());
    if tail.len() == 1 {
        assert(all.drop_last() == seq![head]);
        assert(joined(seq![head], c) == head);
        assert(joined(tail, c) == tail[0]);
    } else {
        lemma_joined_cons(head, tail.drop_last(), c);
        assert(head + seq![c] + joined(tail.drop_last(), c) + seq![c] + tail.last() == head + seq![
            c,
        ] + (joined(tail.drop_last(), c) + seq![c] + tail.last()));
    }
}

/// Joining the pieces of `s` again, with another character between them, replaces the separator.
pub proof fn lemma_replaced_pieces(s: Seq<char>, from: char, to: char)
    ensures
        joined(pieces(s, from), to) == replaced(s, from, to),
        pieces(s, from).len() > 0,
    decreases s.len(),
{
    lemma_first_index(s, from);
    let i = first_index(s, from);
    if i < s.len() {
        let rest = s.skip(i + 1);
        lemma_replaced_pieces(rest, from, to);
        lemma_joined_cons(s.take(i), pieces(rest, from), to);
        assert(replaced(s, from, to) =~= s.take(i) + seq![to] + replaced(rest, from, to));
    } else {
        assert(joined(seq![s], to) == s);
        assert(replaced(s, from, to) =~= s);
    }
}

/// The pieces of a text with the separator between them are the text.
pub proof fn law_joining_the_pieces_gives_the_text(s: Seq<char>, c: char)
    ensures
        joined(pieces(s, c), c) == s,
{
    lemma_replaced_pieces(s, c, c);
    assert(replaced(s, c, c) =~= s);
}

proof fn lemma_trimmed_back(s: Seq<char>)
    ensures
        trimmed_back(s).is_prefix_of(s),
        trimmed_back(s).len() > 0 ==> !is_white_space(trimmed_back(s).last()),
    decreases s.len(),
{
    if s.len() > 0 && is_white_space(s.last()) {
        lemma_trimmed_back(s.drop_last());
    }
}

proof fn lemma_trimmed_front(s: Seq<char>)
    ensures
        trimmed_front(s).len() > 0 ==> !is_white_space(trimmed_front(s)[0]),
    decreases s.len(),
{
    if s.len() > 0 && is_white_space(s[0]) {
        lemma_trimmed_front(s.drop_first());
    }
}

/// A trimmed text neither begins nor ends with white space.
pub proof fn law_trimmed_has_no_white_space_at_its_ends(s: Seq<char>)
    ensures
        trimmed(s).len() > 0 ==> !is_white_space(trimmed(s)[0]) && !is_white_space(
            trimmed(s).last(),
        ),
{
    lemma_trimmed_front(s);
    lemma_trimmed_back(trimmed_front(s));
}

/// Where `c` first stands in `s`, counted in characters.
pub fn find_char(s: &str, c: char) -> (r: Option<usize>)
    ensures
        r matches Some(i) ==> s@.contains(c) && i == first_index(s@, c),
        r is None ==> !s@.contains(c),
{
    let n: usize = s.unicode_len();
    let mut i: usize = 0;
    for x in it: s.chars()
        invariant
            it.seq() == s@,
            i == it.index(),
            n == s@.len(),
            forall|k: int| 0 <= k < i ==> #[trigger] s@[k] != c,
    {
        if x == c {
            proof {
                lemma_first_index_unique(s@, c, i as int);
            }
            return Some(i);
        }
        i = i + 1;
    }
    None
}

/// Cuts `s` at the first `c`.
pub fn split_once<'a>(s: &'a str, c: char) -> (r: Option<(&'a str, &'a str)>)
    ensures
        r is Some <==> cut(s@, c) is Some,
        r matches Some(p) ==> (p.0@, p.1@) == cut(s@, c)->0,
{
    match find_char(s, c) {
        Some(i) => {
            proof {
                lemma_first_index(s@, c);
            }
            let n: usize = s.unicode_len();
            let before = s.substring_char(0, i);
            let after = s.substring_char(i + 1, n);
            assert(before@ == s@.take(i as int));
            assert(after@ == s@.skip(i + 1));
            Some((before, after))
        },
        None => None,
    }
}

/// The pieces of `s` between the separators `c`.
pub fn split<'a>(s: &'a str, c: char) -> (r: Vec<&'a str>)
    ensures
        r@.map_values(|p: &'a str| p@) == pieces(s@, c),
{
    let mut parts: Vec<&'a str> = Vec::new();
    let mut rest: &'a str = s;
    let mut more: bool = true;
    let ghost view = |p: &'a str| p@;
    while more
        invariant
            view == (|p: &'a str| p@),
            more ==> parts@.map_values(view) + pieces(rest@, c) == pieces(s@, c),
            !more ==> parts@.map_values(view) == pieces(s@, c),
        decreases (if more { rest@.len() + 1 } else { 0 }),
    {
        proof {
            lemma_first_index(rest@, c);
        }
        let ghost before = parts@.map_values(view);
        match split_once(rest, c) {
            Some((head, tail)) => {
                parts.push(head);
                assert(parts@.map_values(view) == before.push(head@));
                assert(before.push(head@) + pieces(tail@, c) == before + (seq![head@] + pieces(
                    tail@,
                    c,
                )));
                rest = tail;
            },
            None => {
                parts.push(rest);
                assert(parts@.map_values(view) == before.push(rest@));
                assert(before.push(rest@) == before + seq![rest@]);
                more = false;
            },
        }
    }
    parts
}

/// Whether `s` begins with `prefix`.
pub fn starts_with(s: &str, prefix: &str) -> (r: bool)
    ensures
        r == prefix@.is_prefix_of(s@),
{
    let n: usize = prefix.unicode_len();
    if s.unicode_len() < n {
        false
    } else {
        s.substring_char(0, n).to_owned() == prefix.to_owned()
    }
}

/// Whether `s` ends with the character `c`.
pub fn ends_with_char(s: &str, c: char) -> (r: bool)
    ensures
        r == (s@.len() > 0 && s@.last() == c),
{
    let n: usize = s.unicode_len();
    n > 0 && s.get_char(n - 1) == c
}

/// Whether two pieces of text are the same.
pub fn same_text(a: &str, b: &str) -> (r: bool)
    ensures
        r == (a@ == b@),
{
    a.to_owned() == b.to_owned()
}

/// `s` without its leading white space.
pub fn trim_start<'a>(s: &'a str) -> (r: &'a str)
    ensures
        r@ == trimmed_front(s@),
{
    let n: usize = s.unicode_len();
    let mut i: usize = 0;
    assert(s@.skip(0) == s@);
    for x in it: s.chars()
        invariant
            it.seq() == s@,
            i == it.index(),
            n == s@.len(),
            trimmed_front(s@) == trimmed_front(s@.skip(i as int)),
    {
        assert(s@.skip(i as int)[0] == x);
        if !x.is_whitespace() {
            return s.substring_char(i, n);
        }
        assert(s@.skip(i as int).drop_first() == s@.skip(i + 1));
        i = i + 1;
    }
    assert(s@.skip(n as int) == Seq::<char>::empty());
    s.substring_char(n, n)
}

/// `s` without its leading and trailing white space.
pub fn trim<'a>(s: &'a str) -> (r: &'a str)
    ensures
        r@ == trimmed(s@),
{
    let front = trim_start(s);
    let mut i: usize = front.unicode_len();
    assert(front@.take(i as int) == front@);
    while i > 0 && front.get_char(i - 1).is_whitespace()
        invariant
            i <= front@.len(),
            trimmed_back(front@) == trimmed_back(front@.take(i as int)),
        decreases i,
    {
        assert(front@.take(i as int).last() == front@[i - 1]);
        assert(front@.take(i as int).drop_last() == front@.take(i - 1));
        i = i - 1;
    }
    proof {
        if i > 0 {
            assert(front@.take(i as int).last() == front@[i - 1]);
        }
    }
    front.substring_char(0, i)
}

/// `s` with every `from` turned into `to`, where `to_text` is the text of `to`.
pub fn replace_char(s: &str, from: char, to_text: &str) -> (r: String)
    requires
        to_text@.len() == 1,
    ensures
        r@ == replaced(s@, from, to_text@[0]),
{
    let parts = split(s, from);
    let mut out = String::new();
    let mut i: usize = 0;
    proof {
        lemma_replaced_pieces(s@, from, to_text@[0]);
        assert(to_text@ == seq![to_text@[0]]);
    }
    let ghost all = pieces(s@, from);
    while i < parts.len()
        invariant
            i <= parts.len(),
            all == parts@.map_values(|p: &str| p@),
            to_text@ == seq![to_text@[0]],
            out@ == joined(all.take(i as int), to_text@[0]),
        decreases parts.len() - i,
    {
        if i > 0 {
            out.append(to_text);
        }
        out.append(parts[i]);
        proof {
            let head = all.take(i + 1);
            assert(head.drop_last() == all.take(i as int));
            assert(head.last() == parts@[i as int]@);
            if i == 0 {
                assert(out@ == parts@[0]@);
            }
        }
        i = i + 1;
    }
    assert(all.take(all.len() as int) == all);
    out
}

proof fn lemma_digits_value_grows(s: Seq<char>, n: int)
    requires
        is_digits(s),
        0 <= n <= s.len(),
    ensures
        digits_value(s.take(n)) <= digits_value(s),
    decreases s.len() - n,
{
    if n == s.len() {
        assert(s.take(n) == s);
    } else {
        assert(s.take(n + 1).drop_last() == s.take(n));
        lemma_digits_value_grows(s, n + 1);
    }
}

/// The number that `s` writes, unless it is too large for a `usize`.
pub fn parse_usize(s: &str) -> (r: Option<usize>)
    ensures
        r matches Some(v) ==> unsigned_value(s@) == Some(v as nat),
        r is None ==> (unsigned_value(s@) matches Some(v) ==> v > usize::MAX),
{
    let n: usize = s.unicode_len();
    let start: usize = if n > 0 && s.get_char(0) == '+' {
        1
    } else {
        0
    };
    let ghost digits = s@.skip(start as int);
    if start == n {
        return None;
    }
    let mut value: usize = 0;
    let mut i: usize = 0;
    assert(start == 0 ==> digits == s@);
    assert(start == 1 ==> digits == s@.drop_first());
    for x in it: s.chars()
        invariant
            it.seq() == s@,
            i == it.index(),
            n == s@.len(),
            start <= 1,
            start < n,
            start == 1 <==> s@[0] == '+',
            digits == s@.skip(start as int),
            start == 0 ==> digits == s@,
            start == 1 ==> digits == s@.drop_first(),
            forall|k: int| start <= k < i ==> '0' <= #[trigger] s@[k] <= '9',
            i <= start ==> value == 0,
            i >= start ==> value == digits_value(digits.take(i - start)),
    {
        if i >= start {
            if x < '0' || x > '9' {
                proof {
                    assert(digits[i - start] == x);
                    assert(!is_digits(digits));
                }
                return None;
            }
            let d: usize = (x as u32 - '0' as u32) as usize;
            proof {
                let upto = digits.take(i + 1 - start);
                assert(upto.drop_last() == digits.take(i - start));
                assert(upto.last() == x);
                assert(digits_value(upto) == digits_value(digits.take(i - start)) * 10 + d);
                if is_digits(digits) {
                    lemma_digits_value_grows(digits, i + 1 - start);
                }
            }
            if value > (usize::MAX - d) / 10 {
                assert(value * 10 + d > usize::MAX);
                return None;
            }
            value = value * 10 + d;
        }
        i = i + 1;
    }
    assert(digits.take(n - start) == digits);
    assert(is_digits(digits)) by {
        assert forall|k: int| 0 <= k < digits.len() implies '0' <= #[trigger] digits[k] <= '9' by {
            assert(digits[k] == s@[k + start]);
        }
    }
    Some(value)
}

/// The number that `s` writes, unless it is too large for a `u16`.
pub fn parse_u16(s: &str) -> (r: Option<u16>)
    ensures
        r matches Some(v) ==> unsigned_value(s@) == Some(v as nat),
        r is None ==> (unsigned_value(s@) matches Some(v) ==> v > u16::MAX),
{
    match parse_usize(s) {
        Some(v) => if v <= 65535 {
            Some(v as u16)
        } else {
            None
        },
        None => None,
    }
}

/// `s` with the letters `A` to `Z` turned into `a` to `z`.
pub open spec fn ascii_lowered(s: Seq<char>) -> Seq<char> {
    s.map_values(
        |c: char|
            if 'A' <= c <= 'Z' {
                (c as u32 + 32) as char
            } else {
                c
            },
    )
}

/// What `str::to_lowercase` makes of `s`.
pub uninterp spec fn lowercased(s: Seq<char>) -> Seq<char>;

/// Trusted: `str::to_lowercase` gives the lower case of a string, which is a function of the
/// string alone.  ASCII characters at the front are mapped one by one, `A` to `Z` to `a` to `z`
/// and the others to themselves.  What becomes of other characters is left to `lowercased`.
#[verifier::external_body]
pub(crate) fn to_lowercase(s: &str) -> (r: String)
    ensures
        r@ == lowercased(s@),
        forall|n: int|
            0 <= n <= s@.len() && is_ascii_chars(#[trigger] s@.take(n)) ==> ascii_lowered(
                s@.take(n),
            ).is_prefix_of(r@),
{
    s.to_lowercase()
}

/// What `String::from_utf8_lossy` makes of `bytes`.
pub uninterp spec fn lossy_text(bytes: Seq<u8>) -> Seq<char>;

/// Trusted: `String::from_utf8_lossy` decodes valid UTF-8 as it stands; in other bytes it puts
/// U+FFFD for what is not valid, which is a function of the bytes alone.
#[verifier::external_body]
pub(crate) fn from_utf8_lossy(bytes: &Vec<u8>) -> (r: String)
    ensures
        r@ == lossy_text(bytes@),
        valid_utf8(bytes@) ==> r@ == decode_utf8(bytes@),
{
    String::from_utf8_lossy(bytes).into_owned()
}

/// A text is cut at the first separator into what stands before it and what stands after it,
/// however long the two are and whatever the second holds.
pub proof fn law_cutting_undoes_putting_together(a: Seq<char>, c: char, b: Seq<char>)
    requires
        !a.contains(c),
    ensures
        cut(a + seq![c] + b, c) == Some((a, b)),
{
    let s = a + seq![c] + b;
    assert(s[a.len() as int] == c);
    assert forall|i: int| 0 <= i < a.len() implies #[trigger] s[i] != c by {
        assert(s[i] == a[i]);
        assert(a.contains(a[i]));
    }
    lemma_first_index_unique(s, c, a.len() as int);
    assert(s.take(a.len() as int) =~= a);
    assert(s.skip(a.len() as int + 1) =~= b);
}

/// A text without the separator is not cut, and is one piece.
pub proof fn law_text_without_separator_stays_whole(s: Seq<char>, c: char)
    requires
        !s.contains(c),
    ensures
        cut(s, c) is None,
        pieces(s, c) == seq![s],
{
    lemma_first_index(s, c);
}

/// The pieces of two texts with a separator between them are the pieces of the one and then those
/// of the other.
pub proof fn law_pieces_of_two_texts(a: Seq<char>, c: char, b: Seq<char>)
    ensures
        pieces(a + seq![c] + b, c) == pieces(a, c) + pieces(b, c),
    decreases a.len(),
{
    let s = a + seq![c] + b;
    lemma_first_index(a, c);
    let i = first_index(a, c);
    assert forall|k: int| 0 <= k < i implies #[trigger] s[k] != c by {
        assert(s[k] == a[k]);
    }
    if i < a.len() {
        assert(s[i] == a[i]);
        lemma_first_index_unique(s, c, i);
        let rest = a.skip(i + 1);
        law_pieces_of_two_texts(rest, c, b);
        assert(s.take(i) =~= a.take(i));
        assert(s.skip(i + 1) =~= rest + seq![c] + b);
        assert(seq![a.take(i)] + (pieces(rest, c) + pieces(b, c)) =~= (seq![a.take(i)] + pieces(
            rest,
            c,
        )) + pieces(b, c));
    } else {
        assert(s[a.len() as int] == c);
        lemma_first_index_unique(s, c, a.len() as int);
        assert(s.take(a.len() as int) =~= a);
        assert(s.skip(a.len() as int + 1) =~= b);
    }
}

/// No piece holds the separator.
pub proof fn law_no_piece_holds_the_separator(s: Seq<char>, c: char, k: int)
    requires
        0 <= k < pieces(s, c).len(),
    ensures
        !pieces(s, c)[k].contains(c),
    decreases s.len(),
{
    lemma_first_index(s, c);
    let i = first_index(s, c);
    if i < s.len() {
        if k == 0 {
            assert(pieces(s, c)[0] == s.take(i));
        } else {
            law_no_piece_holds_the_separator(s.skip(i + 1), c, k - 1);
            assert(pieces(s, c)[k] == pieces(s.skip(i + 1), c)[k - 1]);
        }
    }
}

/// `s` consists of white space.
pub open spec fn is_blank(s: Seq<char>) -> bool {
    forall|i: int| 0 <= i < s.len() ==> is_white_space(#[trigger] s[i])
}

/// `s` neither begins nor ends with white space.
pub open spec fn is_tight(s: Seq<char>) -> bool {
    s.len() > 0 ==> !is_white_space(s[0]) && !is_white_space(s.last())
}

/// White space in front of a text is taken off, and nothing of the text.
pub proof fn law_white_space_in_front_is_taken_off(blank: Seq<char>, s: Seq<char>)
    requires
        is_blank(blank),
        s.len() > 0 ==> !is_white_space(s[0]),
    ensures
        trimmed_front(blank + s) == s,
    decreases blank.len(),
{
    if blank.len() == 0 {
        assert(blank + s =~= s);
    } else {
        assert((blank + s)[0] == blank[0]);
        assert((blank + s).drop_first() =~= blank.drop_first() + s);
        assert(is_blank(blank.drop_first())) by {
            assert forall|i: int| 0 <= i < blank.len() - 1 implies is_white_space(
                #[trigger] blank.drop_first()[i],
            ) by {
                assert(blank.drop_first()[i] == blank[i + 1]);
            }
        }
        law_white_space_in_front_is_taken_off(blank.drop_first(), s);
    }
}

proof fn lemma_blank_back(s: Seq<char>, blank: Seq<char>)
    requires
        is_blank(blank),
        s.len() > 0 ==> !is_white_space(s.last()),
    ensures
        trimmed_back(s + blank) == s,
    decreases blank.len(),
{
    if blank.len() == 0 {
        assert(s + blank =~= s);
    } else {
        assert((s + blank).last() == blank[blank.len() - 1]);
        assert((s + blank).drop_last() =~= s + blank.drop_last());
        assert(is_blank(blank.drop_last())) by {
            assert forall|i: int| 0 <= i < blank.len() - 1 implies is_white_space(
                #[trigger] blank.drop_last()[i],
            ) by {
                assert(blank.drop_last()[i] == blank[i]);
            }
        }
        lemma_blank_back(s, blank.drop_last());
    }
}

/// Trimming takes off the white space around a text, and nothing of the text.
pub proof fn law_trimming_takes_off_white_space(front: Seq<char>, s: Seq<char>, back: Seq<char>)
    requires
        is_blank(front),
        is_tight(s),
        is_blank(back),
    ensures
        trimmed(front + s + back) == s,
        trimmed_front(front + s) == s,
{
    if s.len() == 0 {
        let blank = front + back;
        assert(front + s + back =~= blank + s);
        assert(is_blank(blank)) by {
            assert forall|i: int| 0 <= i < blank.len() implies is_white_space(
                #[trigger] blank[i],
            ) by {
                if i < front.len() {
                    assert(blank[i] == front[i]);
                } else {
                    assert(blank[i] == back[i - front.len()]);
                }
            }
        }
        law_white_space_in_front_is_taken_off(blank, s);
        law_white_space_in_front_is_taken_off(front, s);
        assert(s + Seq::<char>::empty() =~= s);
        lemma_blank_back(s, Seq::<char>::empty());
    } else {
        assert(front + s + back =~= front + (s + back));
        assert((s + back)[0] == s[0]);
        law_white_space_in_front_is_taken_off(front, s + back);
        law_white_space_in_front_is_taken_off(front, s);
        lemma_blank_back(s, back);
    }
}

/// Replacing a character changes it wherever it stands, and no other.
pub proof fn law_replacing_changes_one_character(s: Seq<char>, from: char, to: char)
    ensures
        replaced(s, from, to).len() == s.len(),
        forall|i: int|
            0 <= i < s.len() ==> (#[trigger] replaced(s, from, to)[i]) == (if s[i] == from {
                to
            } else {
                s[i]
            }),
{
}

/// The decimal digit of a number below ten.
pub open spec fn digit(n: nat) -> char {
    (n + '0' as nat) as char
}

/// The decimal digits of a number.
pub open spec fn numeral(n: nat) -> Seq<char>
    decreases n,
{
    if n < 10 {
        seq![digit(n)]
    } else {
        numeral(n / 10).push(digit(n % 10))
    }
}

proof fn lemma_numeral(n: nat)
    ensures
        is_digits(numeral(n)),
        digits_value(numeral(n)) == n,
        numeral(n)[0] != '+',
    decreases n,
{
    let s = numeral(n);
    if n < 10 {
        assert(s.drop_last() =~= Seq::<char>::empty());
        assert(digits_value(s.drop_last()) == 0);
    } else {
        lemma_numeral(n / 10);
        assert(s.drop_last() =~= numeral(n / 10));
        assert(s[0] == numeral(n / 10)[0]);
    }
}

/// Reading the digits of a number gives the number, with a `+` in front of them too.
pub proof fn law_reading_a_number_undoes_writing_it(n: nat)
    ensures
        unsigned_value(numeral(n)) == Some(n),
        unsigned_value(seq!['+'] + numeral(n)) == Some(n),
{
    lemma_numeral(n);
    assert((seq!['+'] + numeral(n)).drop_first() =~= numeral(n));
}

/// A text is a number exactly when it is one or more of the digits `0` to `9`, with or without one
/// `+` in front.
pub proof fn law_what_is_a_number(s: Seq<char>)
    ensures
        unsigned_value(s) is Some <==> {
            ||| s.len() > 0 && forall|i: int|
                0 <= i < s.len() ==> '0' <= #[trigger] s[i] <= '9'
            ||| s.len() > 1 && s[0] == '+' && forall|i: int|
                1 <= i < s.len() ==> '0' <= #[trigger] s[i] <= '9'
        },
{
    if s.len() > 0 && s[0] == '+' {
        let rest = s.drop_first();
        if is_digits(rest) {
            assert forall|i: int| 1 <= i < s.len() implies '0' <= #[trigger] s[i] <= '9' by {
                assert(rest[i - 1] == s[i]);
            }
        }
        if forall|i: int| 1 <= i < s.len() ==> '0' <= #[trigger] s[i] <= '9' {
            assert forall|i: int| 0 <= i < rest.len() implies '0' <= #[trigger] rest[i] <= '9' by {
                assert(rest[i] == s[i + 1]);
            }
        }
    }
}

/// A digit behind a number makes it ten times as large and adds the digit.
pub proof fn law_a_digit_more(s: Seq<char>, n: nat)
    requires
        n < 10,
    ensures
        digits_value(s.push(digit(n))) == digits_value(s) * 10 + n,
{
    assert(s.push(digit(n)).drop_last() =~= s);
}

/// What a number is read as: the value of its digits, with a `+` in front of them too.
pub proof fn law_value_of_a_number(digits: Seq<char>)
    requires
        digits.len() > 0,
        forall|i: int| 0 <= i < digits.len() ==> '0' <= #[trigger] digits[i] <= '9',
    ensures
        unsigned_value(digits) == Some(digits_value(digits)),
        unsigned_value(seq!['+'] + digits) == Some(digits_value(digits)),
        digits_value(seq![]) == 0,
{
    assert((seq!['+'] + digits).drop_first() =~= digits);
    assert('0' <= digits[0]);
}

/// Lowering a text changes the letters `A` to `Z` and nothing else.
pub proof fn law_lowering_changes_capital_letters(s: Seq<char>)
    ensures
        ascii_lowered(s).len() == s.len(),
        forall|i: int|
            0 <= i < s.len() ==> (#[trigger] ascii_lowered(s)[i]) == (if 'A' <= s[i] <= 'Z' {
                (s[i] as u32 + 32) as char
            } else {
                s[i]
            }),
{
}

} // verus!
