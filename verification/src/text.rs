//! Character and string utilities: ASCII case mapping, trimming,
//! splitting on a separator character, and the joins that invert them.
//!
//! All text the bot owns (interval names, subscription kinds, token
//! symbols) is ASCII; the helpers here still behave totally on any
//! input and leave non-ASCII characters untouched.

use vstd::prelude::*;
use vstd::utf8::decode_utf8;
use vstd::utf8::valid_utf8;

verus! {

/// Relies on `String::push`: appends exactly the given character.
#[verifier::external_body]
pub(crate) fn push_char(s: &mut String, c: char)
    ensures
        final(s)@ == old(s)@.push(c),
{
    s.push(c);
}

/// Relies on `String::from_utf8`: accepts exactly the valid UTF-8 byte
/// sequences and decodes them, and refuses everything else.
#[verifier::external_body]
pub(crate) fn bytes_to_string(v: Vec<u8>) -> (r: Option<String>)
    ensures
        match r {
            Some(s) => valid_utf8(v@) && s@ == decode_utf8(v@),
            None => !valid_utf8(v@),
        },
{
    match String::from_utf8(v) {
        Ok(s) => Some(s),
        Err(_) => None,
    }
}

/// The ASCII whitespace characters.
pub open spec fn is_ascii_space(c: char) -> bool {
    c == ' ' || c == '\t' || c == '\n' || c == '\r' || c == '\u{c}'
}

pub fn char_is_space(c: char) -> (r: bool)
    ensures
        r == is_ascii_space(c),
{
    c == ' ' || c == '\t' || c == '\n' || c == '\r' || c == '\u{c}'
}

/// ASCII lowercase of one character; anything else is unchanged.
pub open spec fn lower_char(c: char) -> char {
    if c == 'A' {
        'a'
    } else if c == 'B' {
        'b'
    } else if c == 'C' {
        'c'
    } else if c == 'D' {
        'd'
    } else if c == 'E' {
        'e'
    } else if c == 'F' {
        'f'
    } else if c == 'G' {
        'g'
    } else if c == 'H' {
        'h'
    } else if c == 'I' {
        'i'
    } else if c == 'J' {
        'j'
    } else if c == 'K' {
        'k'
    } else if c == 'L' {
        'l'
    } else if c == 'M' {
        'm'
    } else if c == 'N' {
        'n'
    } else if c == 'O' {
        'o'
    } else if c == 'P' {
        'p'
    } else if c == 'Q' {
        'q'
    } else if c == 'R' {
        'r'
    } else if c == 'S' {
        's'
    } else if c == 'T' {
        't'
    } else if c == 'U' {
        'u'
    } else if c == 'V' {
        'v'
    } else if c == 'W' {
        'w'
    } else if c == 'X' {
        'x'
    } else if c == 'Y' {
        'y'
    } else if c == 'Z' {
        'z'
    } else {
        c
    }
}

/// ASCII uppercase of one character; anything else is unchanged.
pub open spec fn upper_char(c: char) -> char {
    if c == 'a' {
        'A'
    } else if c == 'b' {
        'B'
    } else if c == 'c' {
        'C'
    } else if c == 'd' {
        'D'
    } else if c == 'e' {
        'E'
    } else if c == 'f' {
        'F'
    } else if c == 'g' {
        'G'
    } else if c == 'h' {
        'H'
    } else if c == 'i' {
        'I'
    } else if c == 'j' {
        'J'
    } else if c == 'k' {
        'K'
    } else if c == 'l' {
        'L'
    } else if c == 'm' {
        'M'
    } else if c == 'n' {
        'N'
    } else if c == 'o' {
        'O'
    } else if c == 'p' {
        'P'
    } else if c == 'q' {
        'Q'
    } else if c == 'r' {
        'R'
    } else if c == 's' {
        'S'
    } else if c == 't' {
        'T'
    } else if c == 'u' {
        'U'
    } else if c == 'v' {
        'V'
    } else if c == 'w' {
        'W'
    } else if c == 'x' {
        'X'
    } else if c == 'y' {
        'Y'
    } else if c == 'z' {
        'Z'
    } else {
        c
    }
}

pub fn to_lower_char(c: char) -> (r: char)
    ensures
        r == lower_char(c),
{
    match c {
        'A' => 'a',
        'B' => 'b',
        'C' => 'c',
        'D' => 'd',
        'E' => 'e',
        'F' => 'f',
        'G' => 'g',
        'H' => 'h',
        'I' => 'i',
        'J' => 'j',
        'K' => 'k',
        'L' => 'l',
        'M' => 'm',
        'N' => 'n',
        'O' => 'o',
        'P' => 'p',
        'Q' => 'q',
        'R' => 'r',
        'S' => 's',
        'T' => 't',
        'U' => 'u',
        'V' => 'v',
        'W' => 'w',
        'X' => 'x',
        'Y' => 'y',
        'Z' => 'z',
        _ => c,
    }
}

pub fn to_upper_char(c: char) -> (r: char)
    ensures
        r == upper_char(c),
{
    match c {
        'a' => 'A',
        'b' => 'B',
        'c' => 'C',
        'd' => 'D',
        'e' => 'E',
        'f' => 'F',
        'g' => 'G',
        'h' => 'H',
        'i' => 'I',
        'j' => 'J',
        'k' => 'K',
        'l' => 'L',
        'm' => 'M',
        'n' => 'N',
        'o' => 'O',
        'p' => 'P',
        'q' => 'Q',
        'r' => 'R',
        's' => 'S',
        't' => 'T',
        'u' => 'U',
        'v' => 'V',
        'w' => 'W',
        'x' => 'X',
        'y' => 'Y',
        'z' => 'Z',
        _ => c,
    }
}

/// ASCII lowercase of a character sequence.
pub open spec fn lower_chars(s: Seq<char>) -> Seq<char> {
    Seq::new(s.len(), |i: int| lower_char(s[i]))
}

/// ASCII uppercase of a character sequence.
pub open spec fn upper_chars(s: Seq<char>) -> Seq<char> {
    Seq::new(s.len(), |i: int| upper_char(s[i]))
}

pub fn lower_str(s: &str) -> (r: String)
    ensures
        r@ == lower_chars(s@),
{
    let n = s.unicode_len();
    let mut r = String::new();
    let mut i: usize = 0;
    while i < n
        invariant
            i <= n,
            n == s@.len(),
            r@ == lower_chars(s@.take(i as int)),
        decreases n - i,
    {
        let c = s.get_char(i);
        push_char(&mut r, to_lower_char(c));
        proof {
            assert(r@ =~= lower_chars(s@.take(i + 1 as int)));
        }
        i = i + 1;
    }
    proof {
        assert(s@.take(n as int) =~= s@);
    }
    r
}

pub fn upper_str(s: &str) -> (r: String)
    ensures
        r@ == upper_chars(s@),
{
    let n = s.unicode_len();
    let mut r = String::new();
    let mut i: usize = 0;
    while i < n
        invariant
            i <= n,
            n == s@.len(),
            r@ == upper_chars(s@.take(i as int)),
        decreases n - i,
    {
        let c = s.get_char(i);
        push_char(&mut r, to_upper_char(c));
        proof {
            assert(r@ =~= upper_chars(s@.take(i + 1 as int)));
        }
        i = i + 1;
    }
    proof {
        assert(s@.take(n as int) =~= s@);
    }
    r
}

/// Character-for-character string equality.
pub fn str_eq(a: &str, b: &str) -> (r: bool)
    ensures
        r == (a@ == b@),
{
    let n = a.unicode_len();
    if n != b.unicode_len() {
        proof {
            assert(a@.len() != b@.len());
        }
        return false;
    }
    let mut i: usize = 0;
    while i < n
        invariant
            i <= n,
            n == a@.len(),
            n == b@.len(),
            forall|k: int| 0 <= k < i ==> a@[k] == b@[k],
        decreases n - i,
    {
        if a.get_char(i) != b.get_char(i) {
            proof {
                assert(a@[i as int] != b@[i as int]);
            }
            return false;
        }
        i = i + 1;
    }
    proof {
        assert(a@ =~= b@);
    }
    true
}

/// What is left after dropping leading ASCII whitespace.
pub open spec fn trim_start_spec(s: Seq<char>) -> Seq<char>
    decreases s.len(),
{
    if s.len() > 0 && is_ascii_space(s[0]) {
        trim_start_spec(s.drop_first())
    } else {
        s
    }
}

/// What is left after dropping trailing ASCII whitespace.
pub open spec fn trim_end_spec(s: Seq<char>) -> Seq<char>
    decreases s.len(),
{
    if s.len() > 0 && is_ascii_space(s[s.len() - 1]) {
        trim_end_spec(s.drop_last())
    } else {
        s
    }
}

/// What is left after dropping whitespace on both ends.
pub open spec fn trim_spec(s: Seq<char>) -> Seq<char> {
    trim_end_spec(trim_start_spec(s))
}

pub fn trim_str<'a>(s: &'a str) -> (r: &'a str)
    ensures
        r@ == trim_spec(s@),
{
    let n = s.unicode_len();
    let mut a: usize = 0;
    proof {
        assert(s@.skip(0) =~= s@);
    }
    while a < n && char_is_space(s.get_char(a))
        invariant
            a <= n,
            n == s@.len(),
            trim_start_spec(s@) == trim_start_spec(s@.skip(a as int)),
        decreases n - a,
    {
        proof {
            assert(s@.skip(a as int).drop_first() =~= s@.skip(a + 1 as int));
        }
        a = a + 1;
    }
    proof {
        if a < n {
            assert(trim_start_spec(s@.skip(a as int)) == s@.skip(a as int));
        } else {
            assert(s@.skip(a as int) =~= Seq::<char>::empty());
        }
    }
    let mut b: usize = n;
    proof {
        assert(s@.skip(a as int) =~= s@.subrange(a as int, n as int));
    }
    while b > a && char_is_space(s.get_char(b - 1))
        invariant
            a <= b <= n,
            n == s@.len(),
            trim_start_spec(s@) == s@.skip(a as int),
            trim_end_spec(s@.skip(a as int)) == trim_end_spec(s@.subrange(a as int, b as int)),
        decreases b,
    {
        proof {
            assert(s@.subrange(a as int, b as int).drop_last() =~= s@.subrange(
                a as int,
                b - 1 as int,
            ));
        }
        b = b - 1;
    }
    proof {
        if b > a {
            assert(trim_end_spec(s@.subrange(a as int, b as int)) == s@.subrange(
                a as int,
                b as int,
            ));
        } else {
            assert(s@.subrange(a as int, b as int) =~= Seq::<char>::empty());
        }
        assert(s@.skip(a as int) =~= s@.subrange(a as int, n as int));
    }
    s.substring_char(a, b)
}

/// Index of the first ASCII whitespace character, or -1 when there is
/// none.
pub open spec fn find_first_space(s: Seq<char>) -> int
    decreases s.len(),
{
    if s.len() == 0 {
        -1
    } else if is_ascii_space(s[0]) {
        0
    } else {
        let r = find_first_space(s.drop_first());
        if r < 0 {
            -1
        } else {
            r + 1
        }
    }
}

pub proof fn lemma_find_first_space(s: Seq<char>)
    ensures
        -1 <= find_first_space(s) < s.len(),
        find_first_space(s) >= 0 ==> is_ascii_space(s[find_first_space(s)]),
        forall|k: int| 0 <= k < find_first_space(s) ==> !is_ascii_space(s[k]),
        find_first_space(s) < 0 ==> forall|k: int| 0 <= k < s.len() ==> !is_ascii_space(s[k]),
    decreases s.len(),
{
    if s.len() > 0 && !is_ascii_space(s[0]) {
        lemma_find_first_space(s.drop_first());
        assert forall|k: int| 0 <= k < find_first_space(s) implies !is_ascii_space(s[k]) by {
            if k > 0 {
                assert(s.drop_first()[k - 1] == s[k]);
            }
        }
        if find_first_space(s) < 0 {
            assert forall|k: int| 0 <= k < s.len() implies !is_ascii_space(s[k]) by {
                if k > 0 {
                    assert(s.drop_first()[k - 1] == s[k]);
                }
            }
        }
    }
}

/// Where a run of non-whitespace starting the text ends (at `k`), the
/// first-space search finds exactly that boundary.
pub proof fn lemma_find_first_space_prefix(s: Seq<char>, k: int)
    requires
        0 <= k <= s.len(),
        forall|m: int| 0 <= m < k ==> !is_ascii_space(#[trigger] s[m]),
        k == s.len() || is_ascii_space(s[k]),
    ensures
        find_first_space(s) == if k == s.len() {
            -1int
        } else {
            k
        },
    decreases k,
{
    if k == 0 {
        if s.len() > 0 {
            assert(is_ascii_space(s[0]));
        }
    } else {
        assert(!is_ascii_space(s[0]));
        assert forall|m: int| 0 <= m < k - 1 implies !is_ascii_space(
            #[trigger] s.drop_first()[m],
        ) by {
            assert(s.drop_first()[m] == s[m + 1]);
        }
        if k < s.len() {
            assert(s.drop_first()[k - 1] == s[k]);
        }
        lemma_find_first_space_prefix(s.drop_first(), k - 1);
    }
}

/// The whitespace-separated words of the text, in order, no empties.
pub open spec fn spec_words(s: Seq<char>) -> Seq<Seq<char>>
    decreases s.len(),
    via spec_words_decreases
{
    if s.len() == 0 {
        Seq::empty()
    } else if is_ascii_space(s[0]) {
        spec_words(s.drop_first())
    } else {
        let j = find_first_space(s);
        if j < 0 {
            seq![s]
        } else {
            seq![s.take(j)] + spec_words(s.skip(j))
        }
    }
}

#[via_fn]
proof fn spec_words_decreases(s: Seq<char>) {
    lemma_find_first_space(s);
}

/// Splits the text into its whitespace-separated words.
pub fn split_words(s: &str) -> (words: Vec<String>)
    ensures
        words@.map_values(|w: String| w@) == spec_words(s@),
{
    let n = s.unicode_len();
    let mut words: Vec<String> = Vec::new();
    let mut i: usize = 0;
    proof {
        assert(s@.skip(0) =~= s@);
        assert(words@.map_values(|w: String| w@) =~= Seq::<Seq<char>>::empty());
    }
    while i < n
        invariant
            i <= n,
            n == s@.len(),
            spec_words(s@) == words@.map_values(|w: String| w@) + spec_words(s@.skip(i as int)),
        decreases n - i,
    {
        let c = s.get_char(i);
        if char_is_space(c) {
            proof {
                assert(s@.skip(i as int).drop_first() =~= s@.skip(i + 1 as int));
            }
            i = i + 1;
        } else {
            let start = i;
            let mut word = String::new();
            push_char(&mut word, c);
            i = i + 1;
            proof {
                assert(word@ =~= s@.subrange(start as int, i as int));
            }
            while i < n && !char_is_space(s.get_char(i))
                invariant
                    start < i <= n,
                    n == s@.len(),
                    word@ == s@.subrange(start as int, i as int),
                    forall|m: int|
                        start <= m < i ==> !is_ascii_space(#[trigger] s@[m]),
                decreases n - i,
            {
                push_char(&mut word, s.get_char(i));
                proof {
                    assert(word@ =~= s@.subrange(start as int, i + 1 as int));
                }
                i = i + 1;
            }
            proof {
                let rest = s@.skip(start as int);
                assert forall|m: int| 0 <= m < i - start implies !is_ascii_space(
                    #[trigger] rest[m],
                ) by {
                    assert(rest[m] == s@[start + m]);
                }
                if i < n {
                    assert(rest[i - start] == s@[i as int]);
                }
                lemma_find_first_space_prefix(rest, i - start);
                assert(rest.take(i - start) =~= s@.subrange(start as int, i as int));
                if i < n {
                    assert(rest.skip(i - start) =~= s@.skip(i as int));
                    assert(spec_words(rest) == seq![word@] + spec_words(s@.skip(i as int)));
                } else {
                    assert(rest =~= s@.subrange(start as int, i as int));
                    assert(spec_words(rest) == seq![word@]);
                }
            }
            let ghost old_words = words@;
            words.push(word);
            proof {
                assert(words@.map_values(|w: String| w@) =~= old_words.map_values(
                    |w: String| w@,
                ).push(words@.last()@));
                if i < n {
                    assert(old_words.map_values(|w: String| w@).push(words@.last()@) + spec_words(
                        s@.skip(i as int),
                    ) =~= old_words.map_values(|w: String| w@) + (seq![words@.last()@]
                        + spec_words(s@.skip(i as int))));
                } else {
                    assert(s@.skip(i as int) =~= Seq::<char>::empty());
                    assert(old_words.map_values(|w: String| w@).push(words@.last()@) =~= old_words
                        .map_values(|w: String| w@) + seq![words@.last()@]);
                }
            }
        }
    }
    proof {
        assert(s@.skip(i as int) =~= Seq::<char>::empty());
        assert(words@.map_values(|w: String| w@) + Seq::<Seq<char>>::empty() =~= words@.map_values(
            |w: String| w@,
        ));
    }
    words
}

/// Index of the last occurrence of `sep`, or -1 when there is none.
pub open spec fn find_last_sep(s: Seq<char>, sep: char) -> int
    decreases s.len(),
{
    if s.len() == 0 {
        -1
    } else if s[s.len() - 1] == sep {
        s.len() - 1
    } else {
        find_last_sep(s.drop_last(), sep)
    }
}

pub proof fn lemma_find_last_sep(s: Seq<char>, sep: char)
    ensures
        -1 <= find_last_sep(s, sep) < s.len(),
        find_last_sep(s, sep) >= 0 ==> s[find_last_sep(s, sep)] == sep,
        find_last_sep(s, sep) < 0 ==> !s.contains(sep),
        forall|k: int| find_last_sep(s, sep) < k < s.len() ==> s[k] != sep,
    decreases s.len(),
{
    if s.len() > 0 && s[s.len() - 1] != sep {
        lemma_find_last_sep(s.drop_last(), sep);
        let j = find_last_sep(s, sep);
        if j >= 0 {
            assert(s.drop_last()[j] == s[j]);
        }
        assert forall|k: int| j < k < s.len() implies s[k] != sep by {
            if k < s.len() - 1 {
                assert(s.drop_last()[k] == s[k]);
            }
        }
        if j < 0 {
            if s.contains(sep) {
                let k = choose|k: int| 0 <= k < s.len() && s[k] == sep;
                assert(s[k] != sep);
            }
        }
    }
}

/// The pieces of `s` between occurrences of `sep`; always at least one
/// piece, and `s.len() - pieces` joined by `sep` gives back `s`.
pub open spec fn split_chars(s: Seq<char>, sep: char) -> Seq<Seq<char>>
    decreases s.len(),
    via split_chars_decreases
{
    let j = find_last_sep(s, sep);
    if j < 0 {
        seq![s]
    } else {
        split_chars(s.take(j), sep).push(s.skip(j + 1))
    }
}

#[via_fn]
proof fn split_chars_decreases(s: Seq<char>, sep: char) {
    lemma_find_last_sep(s, sep);
}

pub proof fn lemma_split_chars_len(s: Seq<char>, sep: char)
    ensures
        split_chars(s, sep).len() >= 1,
    decreases s.len(),
{
    lemma_find_last_sep(s, sep);
    let j = find_last_sep(s, sep);
    if j >= 0 {
        lemma_split_chars_len(s.take(j), sep);
    }
}

/// How one appended character changes the split.
pub proof fn lemma_split_chars_push(s: Seq<char>, sep: char, c: char)
    ensures
        c == sep ==> split_chars(s.push(c), sep) == split_chars(s, sep).push(Seq::empty()),
        c != sep ==> split_chars(s.push(c), sep) == split_chars(s, sep).update(
            split_chars(s, sep).len() - 1,
            split_chars(s, sep).last().push(c),
        ),
        split_chars(s, sep).len() >= 1,
{
    lemma_split_chars_len(s, sep);
    lemma_find_last_sep(s, sep);
    lemma_find_last_sep(s.push(c), sep);
    let t = s.push(c);
    if c == sep {
        assert(t[t.len() - 1] == sep);
        assert(find_last_sep(t, sep) == s.len());
        assert(t.take(s.len() as int) =~= s);
        assert(t.skip(s.len() as int + 1) =~= Seq::<char>::empty());
        assert(split_chars(t, sep) =~~= split_chars(s, sep).push(Seq::empty()));
    } else {
        assert(t[t.len() - 1] != sep);
        assert(t.drop_last() =~= s);
        assert(find_last_sep(t, sep) == find_last_sep(s, sep));
        let j = find_last_sep(s, sep);
        if j < 0 {
            assert(split_chars(t, sep) =~~= seq![t]);
            assert(split_chars(s, sep) =~~= seq![s]);
            assert(split_chars(s, sep).update(0, s.push(c)) =~~= seq![t]);
        } else {
            assert(t.take(j) =~= s.take(j));
            assert(t.skip(j + 1) =~= s.skip(j + 1).push(c));
            assert(split_chars(t, sep) == split_chars(s.take(j), sep).push(
                s.skip(j + 1).push(c),
            ));
            lemma_split_chars_len(s.take(j), sep);
            assert(split_chars(s, sep) == split_chars(s.take(j), sep).push(s.skip(j + 1)));
            assert(split_chars(s, sep).update(
                split_chars(s, sep).len() - 1,
                split_chars(s, sep).last().push(c),
            ) =~~= split_chars(s.take(j), sep).push(s.skip(j + 1).push(c)));
        }
    }
}

/// The pieces joined back with `sep` between them.
pub open spec fn join_chars(parts: Seq<Seq<char>>, sep: char) -> Seq<char>
    decreases parts.len(),
{
    if parts.len() == 0 {
        Seq::empty()
    } else if parts.len() == 1 {
        parts[0]
    } else {
        join_chars(parts.drop_last(), sep).push(sep) + parts.last()
    }
}

proof fn lemma_find_last_sep_after(a: Seq<char>, b: Seq<char>, sep: char)
    requires
        !b.contains(sep),
    ensures
        find_last_sep(a.push(sep) + b, sep) == a.len(),
    decreases b.len(),
{
    let s = a.push(sep) + b;
    if b.len() == 0 {
        assert(s =~= a.push(sep));
        assert(s[s.len() - 1] == sep);
    } else {
        assert(b[b.len() - 1] != sep);
        assert(s[s.len() - 1] == b[b.len() - 1]);
        assert(s.drop_last() =~= a.push(sep) + b.drop_last());
        assert(!b.drop_last().contains(sep)) by {
            if b.drop_last().contains(sep) {
                let k = choose|k: int| 0 <= k < b.len() - 1 && b.drop_last()[k] == sep;
                assert(b[k] == sep);
            }
        }
        lemma_find_last_sep_after(a, b.drop_last(), sep);
    }
}

/// Splitting on `sep` undoes joining with `sep`, whenever no piece
/// contains the separator.
pub proof fn lemma_split_join(parts: Seq<Seq<char>>, sep: char)
    requires
        parts.len() >= 1,
        forall|i: int| 0 <= i < parts.len() ==> !(#[trigger] parts[i]).contains(sep),
    ensures
        split_chars(join_chars(parts, sep), sep) == parts,
    decreases parts.len(),
{
    let s = join_chars(parts, sep);
    if parts.len() == 1 {
        assert(s == parts[0]);
        lemma_find_last_sep(s, sep);
        if find_last_sep(s, sep) >= 0 {
            assert(s.contains(sep));
        }
        assert(split_chars(s, sep) =~~= parts);
    } else {
        let front = parts.drop_last();
        let a = join_chars(front, sep);
        assert(s == a.push(sep) + parts.last());
        lemma_find_last_sep_after(a, parts.last(), sep);
        assert(find_last_sep(s, sep) == a.len());
        assert(s.take(a.len() as int) =~= a);
        assert(s.skip(a.len() as int + 1) =~= parts.last());
        assert forall|i: int| 0 <= i < front.len() implies !(#[trigger] front[i]).contains(
            sep,
        ) by {
            assert(front[i] == parts[i]);
        }
        lemma_split_join(front, sep);
        assert(split_chars(s, sep) =~~= front.push(parts.last()));
        assert(front.push(parts.last()) =~~= parts);
    }
}

/// Splits `s` at every occurrence of `sep`, keeping empty pieces.
pub fn split_on_char(s: &str, sep: char) -> (parts: Vec<String>)
    ensures
        parts@.map_values(|p: String| p@) == split_chars(s@, sep),
{
    let n = s.unicode_len();
    let mut parts: Vec<String> = Vec::new();
    let mut cur = String::new();
    let mut i: usize = 0;
    proof {
        assert(s@.take(0) =~= Seq::<char>::empty());
        assert(parts@.map_values(|p: String| p@).push(cur@) =~~= split_chars(s@.take(0), sep));
    }
    while i < n
        invariant
            i <= n,
            n == s@.len(),
            parts@.map_values(|p: String| p@).push(cur@) == split_chars(s@.take(i as int), sep),
        decreases n - i,
    {
        let c = s.get_char(i);
        proof {
            assert(s@.take(i + 1 as int) =~= s@.take(i as int).push(c));
            lemma_split_chars_push(s@.take(i as int), sep, c);
        }
        if c == sep {
            let ghost old_parts = parts@;
            let ghost old_cur = cur@;
            parts.push(cur);
            cur = String::new();
            proof {
                assert(parts@.map_values(|p: String| p@).push(cur@) =~~= old_parts.map_values(
                    |p: String| p@,
                ).push(old_cur).push(Seq::<char>::empty()));
            }
        } else {
            let ghost old_parts = parts@;
            let ghost old_cur = cur@;
            push_char(&mut cur, c);
            proof {
                let m = old_parts.map_values(|p: String| p@).push(old_cur);
                assert(m.last() == old_cur);
                assert(parts@.map_values(|p: String| p@).push(cur@) =~~= m.update(
                    m.len() - 1,
                    old_cur.push(c),
                ));
            }
        }
        i = i + 1;
    }
    proof {
        assert(s@.take(n as int) =~= s@);
    }
    parts.push(cur);
    proof {
        assert(parts@.map_values(|p: String| p@) =~~= split_chars(s@, sep));
    }
    parts
}

} // verus!
