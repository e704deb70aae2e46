//! Text as sequences of characters: comparison, splitting and decimal numbers.

use vstd::prelude::*;

verus! {

/// `String::push` appends one character.
pub assume_specification[ std::string::String::push ](s: &mut std::string::String, c: char)
    ensures
        final(s)@ == old(s)@.push(c),
;

/// The views of a list of strings.
pub open spec fn views(list: Seq<String>) -> Seq<Seq<char>> {
    list.map_values(|s: String| s@)
}

/// The view of an optional string.
pub open spec fn opt_view(o: Option<String>) -> Option<Seq<char>> {
    match o {
        Some(s) => Some(s@),
        None => None,
    }
}

/// The views of a list of character vectors.
pub open spec fn char_views(list: Seq<Vec<char>>) -> Seq<Seq<char>> {
    list.map_values(|s: Vec<char>| s@)
}

/// ASCII lower case; every other character is left alone.
pub open spec fn lower_char(c: char) -> char {
    if 'A' <= c && c <= 'Z' {
        (c as u32 + 32) as char
    } else {
        c
    }
}

/// `s` with every ASCII capital in lower case.
pub open spec fn lower(s: Seq<char>) -> Seq<char> {
    s.map_values(|c: char| lower_char(c))
}

/// Equality that ignores the case of ASCII letters.
pub open spec fn same_ignoring_case(a: Seq<char>, b: Seq<char>) -> bool {
    lower(a) == lower(b)
}

/// Whether `needle` stands in `hay` at position `at`.
pub open spec fn occurs_at<T>(needle: Seq<T>, hay: Seq<T>, at: int) -> bool {
    &&& 0 <= at
    &&& at + needle.len() <= hay.len()
    &&& hay.subrange(at, at + needle.len()) == needle
}

/// Whether `needle` stands anywhere in `hay`.
pub open spec fn occurs<T>(needle: Seq<T>, hay: Seq<T>) -> bool {
    exists|at: int| occurs_at(needle, hay, at)
}

/// The Unicode `White_Space` property.
pub open spec fn is_white(c: char) -> bool {
    ||| 0x9 <= c as u32 && c as u32 <= 0xd
    ||| c as u32 == 0x20
    ||| c as u32 == 0x85
    ||| c as u32 == 0xa0
    ||| c as u32 == 0x1680
    ||| 0x2000 <= c as u32 && c as u32 <= 0x200a
    ||| c as u32 == 0x2028
    ||| c as u32 == 0x2029
    ||| c as u32 == 0x202f
    ||| c as u32 == 0x205f
    ||| c as u32 == 0x3000
}

/// The number of characters before the first white one.
pub open spec fn word_len(s: Seq<char>) -> nat
    decreases s.len(),
{
    if s.len() == 0 || is_white(s[0]) {
        0
    } else {
        1 + word_len(s.drop_first())
    }
}

pub proof fn lemma_word_len(s: Seq<char>)
    ensures
        word_len(s) <= s.len(),
        forall|i: int| 0 <= i < word_len(s) ==> !is_white(#[trigger] s[i]),
        word_len(s) < s.len() ==> is_white(s[word_len(s) as int]),
    decreases s.len(),
{
    if s.len() > 0 && !is_white(s[0]) {
        let t = s.drop_first();
        lemma_word_len(t);
        assert forall|i: int| 0 <= i < word_len(s) implies !is_white(#[trigger] s[i]) by {
            if i > 0 {
                assert(t[i - 1] == s[i]);
            }
        }
        if word_len(s) < s.len() {
            assert(t[word_len(t) as int] == s[word_len(s) as int]);
        }
    }
}

/// A prefix without white space that ends at the text's end or at a white character is the
/// first word.
pub proof fn lemma_word_len_is(s: Seq<char>, n: int)
    requires
        0 <= n <= s.len(),
        forall|i: int| 0 <= i < n ==> !is_white(#[trigger] s[i]),
        n < s.len() ==> is_white(s[n]),
    ensures
        word_len(s) == n,
    decreases s.len(),
{
    if n > 0 {
        assert(!is_white(s[0]));
        let t = s.drop_first();
        assert forall|i: int| 0 <= i < n - 1 implies !is_white(#[trigger] t[i]) by {
            assert(t[i] == s[i + 1]);
        }
        lemma_word_len_is(t, n - 1);
    }
}

/// The words of a text: its longest stretches without white space, in order.
pub open spec fn words(s: Seq<char>) -> Seq<Seq<char>>
    decreases s.len(),
{
    if s.len() == 0 {
        Seq::empty()
    } else if is_white(s[0]) {
        words(s.drop_first())
    } else if word_len(s) >= s.len() {
        seq![s]
    } else {
        seq![s.take(word_len(s) as int)] + words(s.skip(word_len(s) as int))
    }
}

/// `s` without the white space at its start.
pub open spec fn trim_start(s: Seq<char>) -> Seq<char>
    decreases s.len(),
{
    if s.len() > 0 && is_white(s[0]) {
        trim_start(s.drop_first())
    } else {
        s
    }
}

/// `s` without the white space at its end.
pub open spec fn trim_end(s: Seq<char>) -> Seq<char>
    decreases s.len(),
{
    if s.len() > 0 && is_white(s.last()) {
        trim_end(s.drop_last())
    } else {
        s
    }
}

/// `s` without the white space around it.
pub open spec fn trim(s: Seq<char>) -> Seq<char> {
    trim_end(trim_start(s))
}

/// The number of characters before the first `sep`.
pub open spec fn run_len(s: Seq<char>, sep: char) -> nat
    decreases s.len(),
{
    if s.len() == 0 || s[0] == sep {
        0
    } else {
        1 + run_len(s.drop_first(), sep)
    }
}

pub proof fn lemma_run_len_is(s: Seq<char>, sep: char, n: int)
    requires
        0 <= n <= s.len(),
        forall|i: int| 0 <= i < n ==> #[trigger] s[i] != sep,
        n < s.len() ==> s[n] == sep,
    ensures
        run_len(s, sep) == n,
    decreases s.len(),
{
    if n > 0 {
        assert(s[0] != sep);
        let t = s.drop_first();
        assert forall|i: int| 0 <= i < n - 1 implies #[trigger] t[i] != sep by {
            assert(t[i] == s[i + 1]);
        }
        lemma_run_len_is(t, sep, n - 1);
    }
}

/// The pieces of a text between its separators. A text without one is a single piece.
pub open spec fn pieces(s: Seq<char>, sep: char) -> Seq<Seq<char>>
    decreases s.len(),
{
    if run_len(s, sep) >= s.len() {
        seq![s]
    } else {
        seq![s.take(run_len(s, sep) as int)] + pieces(s.skip(run_len(s, sep) as int + 1), sep)
    }
}

pub open spec fn is_digit(c: char) -> bool {
    '0' <= c && c <= '9'
}

pub open spec fn all_digits(s: Seq<char>) -> bool {
    forall|i: int| 0 <= i < s.len() ==> is_digit(#[trigger] s[i])
}

/// The number that a run of decimal digits writes down.
pub open spec fn digits_value(s: Seq<char>) -> nat
    decreases s.len(),
{
    if s.len() == 0 {
        0
    } else {
        digits_value(s.drop_last()) * 10 + (s.last() as u32 - '0' as u32) as nat
    }
}

/// The number that `s` writes down, if it is one no greater than `max`: decimal digits, at
/// least one, after an optional plus sign.
pub open spec fn unsigned(s: Seq<char>, max: nat) -> Option<nat> {
    let digits = if s.len() > 0 && s[0] == '+' {
        s.skip(1)
    } else {
        s
    };
    if digits.len() > 0 && all_digits(digits) && digits_value(digits) <= max {
        Some(digits_value(digits))
    } else {
        None
    }
}

pub open spec fn digit_char(d: nat) -> char {
    ('0' as u32 + d) as char
}

/// `n` in decimal.
pub open spec fn decimal(n: nat) -> Seq<char>
    decreases n,
{
    if n < 10 {
        seq![digit_char(n)]
    } else {
        decimal(n / 10).push(digit_char(n % 10))
    }
}

/// Reading back a decimal number gives the number.
pub proof fn lemma_decimal(n: nat)
    ensures
        decimal(n).len() > 0,
        all_digits(decimal(n)),
        digits_value(decimal(n)) == n,
    decreases n,
{
    if n < 10 {
        let s = decimal(n);
        assert(s.drop_last() =~= Seq::<char>::empty());
        assert(digits_value(s.drop_last()) == 0);
    } else {
        lemma_decimal(n / 10);
        let s = decimal(n);
        assert(s.drop_last() =~= decimal(n / 10));
        assert forall|i: int| 0 <= i < s.len() implies is_digit(#[trigger] s[i]) by {
            if i < s.len() - 1 {
                assert(s[i] == decimal(n / 10)[i]);
            }
        }
    }
}

/// A digit is neither white nor a plus sign.
pub proof fn lemma_digit_plain(c: char)
    requires
        is_digit(c),
    ensures
        !is_white(c),
        c != '+',
{
}

/// The decimal form of a number parses as that number.
pub proof fn lemma_decimal_parses(n: nat, max: nat)
    requires
        n <= max,
    ensures
        unsigned(decimal(n), max) == Some(n),
{
    lemma_decimal(n);
    lemma_digit_plain(decimal(n)[0]);
}

proof fn lemma_digits_value_prefix(s: Seq<char>, n: int)
    requires
        0 <= n <= s.len(),
        all_digits(s),
    ensures
        digits_value(s.take(n)) <= digits_value(s),
    decreases s.len() - n,
{
    if n < s.len() {
        lemma_digits_value_prefix(s, n + 1);
        let t = s.take(n + 1);
        assert(t.drop_last() =~= s.take(n));
        assert(is_digit(s[n]));
    } else {
        assert(s.take(n) =~= s);
    }
}

/// The characters of a string.
pub fn chars_of(s: &str) -> (v: Vec<char>)
    ensures
        v@ == s@,
{
    let mut v: Vec<char> = Vec::new();
    for c in it: s.chars()
        invariant
            v@ == it.seq().take(it.index() as int),
            it.seq() == s@,
    {
        v.push(c);
    }
    v
}

/// The string that holds the characters of `v`.
pub fn string_of(v: &Vec<char>) -> (s: String)
    ensures
        s@ == v@,
{
    let mut s = String::new();
    let mut i: usize = 0;
    while i < v.len()
        invariant
            i <= v.len(),
            s@ == v@.take(i as int),
        decreases v.len() - i,
    {
        s.push(v[i]);
        i += 1;
    }
    assert(v@.take(i as int) =~= v@);
    s
}

/// Whether a character vector spells `text`.
pub fn spells(v: &Vec<char>, text: &str) -> (b: bool)
    ensures
        b == (v@ == text@),
{
    let w = chars_of(text);
    same_chars(v, &w)
}

pub fn same_chars(v: &Vec<char>, w: &Vec<char>) -> (b: bool)
    ensures
        b == (v@ == w@),
{
    if v.len() != w.len() {
        return false;
    }
    let mut i: usize = 0;
    while i < v.len()
        invariant
            i <= v.len(),
            v.len() == w.len(),
            forall|j: int| 0 <= j < i ==> v@[j] == w@[j],
        decreases v.len() - i,
    {
        if v[i] != w[i] {
            return false;
        }
        i += 1;
    }
    assert(v@ =~= w@);
    true
}

/// Whether two strings hold the same characters.
pub fn same_text(a: &str, b: &str) -> (r: bool)
    ensures
        r == (a@ == b@),
{
    let v = chars_of(a);
    spells(&v, b)
}

fn to_lower_char(c: char) -> (r: char)
    ensures
        r == lower_char(c),
{
    if 'A' <= c && c <= 'Z' {
        ((c as u8) + 32u8) as char
    } else {
        c
    }
}

/// `text` in ASCII lower case.
pub fn to_lower(text: &str) -> (v: Vec<char>)
    ensures
        v@ == lower(text@),
{
    let mut v: Vec<char> = Vec::new();
    for c in it: text.chars()
        invariant
            v@ == lower(text@).take(it.index() as int),
            it.seq() == text@,
    {
        v.push(to_lower_char(c));
    }
    v
}

/// Equality that ignores the case of ASCII letters.
pub fn eq_ignoring_case(a: &str, b: &str) -> (r: bool)
    ensures
        r == same_ignoring_case(a@, b@),
{
    let v = to_lower(a);
    let w = to_lower(b);
    same_chars(&v, &w)
}

/// Whether `needle` stands in `hay` at position `at`.
pub fn stands_at(needle: &Vec<char>, hay: &Vec<char>, at: usize) -> (b: bool)
    ensures
        b == occurs_at(needle@, hay@, at as int),
{
    if needle.len() > hay.len() || at > hay.len() - needle.len() {
        return false;
    }
    let mut i: usize = 0;
    while i < needle.len()
        invariant
            i <= needle.len(),
            at + needle.len() <= hay.len(),
            forall|j: int| 0 <= j < i ==> needle@[j] == hay@[at + j],
        decreases needle.len() - i,
    {
        if needle[i] != hay[at + i] {
            assert(hay@.subrange(at as int, at + needle@.len())[i as int] == hay@[at + i]);
            return false;
        }
        i += 1;
    }
    assert(hay@.subrange(at as int, at + needle@.len()) =~= needle@);
    true
}

/// The first position at which `needle` stands in `hay`, at or after `from`.
pub fn find_from(needle: &Vec<char>, hay: &Vec<char>, from: usize) -> (r: Option<usize>)
    ensures
        match r {
            Some(at) => {
                &&& from <= at
                &&& occurs_at(needle@, hay@, at as int)
                &&& forall|i: int| from <= i < at ==> !occurs_at(needle@, hay@, i)
            },
            None => forall|i: int| from <= i ==> !occurs_at(needle@, hay@, i),
        },
{
    if needle.len() > hay.len() {
        return None;
    }
    let last: usize = hay.len() - needle.len();
    let mut at: usize = from;
    while at <= last
        invariant
            from <= at,
            last == hay@.len() - needle@.len(),
            from <= last + 1 ==> at <= last + 1,
            forall|i: int| from <= i < at ==> !occurs_at(needle@, hay@, i),
        decreases last + 1 - at,
    {
        if stands_at(needle, hay, at) {
            return Some(at);
        }
        if at == last {
            return None;
        }
        at += 1;
    }
    None
}

/// Whether `needle` stands anywhere in `hay`.
pub fn contains_chars(needle: &Vec<char>, hay: &Vec<char>) -> (b: bool)
    ensures
        b == occurs(needle@, hay@),
{
    find_from(needle, hay, 0).is_some()
}

/// Whether `needle` stands anywhere in the characters `hay`.
pub fn contains_text(hay: &Vec<char>, needle: &str) -> (b: bool)
    ensures
        b == occurs(needle@, hay@),
{
    let n = chars_of(needle);
    contains_chars(&n, hay)
}

pub fn begins_with(hay: &Vec<char>, prefix: &str) -> (b: bool)
    ensures
        b == prefix@.is_prefix_of(hay@),
{
    let p = chars_of(prefix);
    let b = stands_at(&p, hay, 0);
    proof {
        if p@.len() <= hay@.len() {
            assert(hay@.subrange(0, p@.len() as int) =~= hay@.take(p@.len() as int));
        }
    }
    b
}

pub fn ends_with(hay: &Vec<char>, suffix: &str) -> (b: bool)
    ensures
        b == suffix@.is_suffix_of(hay@),
{
    let p = chars_of(suffix);
    if p.len() > hay.len() {
        return false;
    }
    let at: usize = hay.len() - p.len();
    let b = stands_at(&p, hay, at);
    proof {
        assert(hay@.subrange(at as int, at + p@.len()) =~= hay@.subrange(
            (hay@.len() - p@.len()) as int,
            hay@.len() as int,
        ));
    }
    b
}

/// A copy of the characters from `from` to `to`.
pub fn slice_of(v: &Vec<char>, from: usize, to: usize) -> (r: Vec<char>)
    requires
        from <= to <= v.len(),
    ensures
        r@ == v@.subrange(from as int, to as int),
{
    let mut r: Vec<char> = Vec::new();
    let mut i: usize = from;
    while i < to
        invariant
            from <= i <= to,
            to <= v.len(),
            r@ == v@.subrange(from as int, i as int),
        decreases to - i,
    {
        r.push(v[i]);
        i += 1;
        assert(v@.subrange(from as int, i as int) =~= v@.subrange(from as int, i - 1).push(v@[i - 1]));
    }
    r
}

/// Whether `c` is white space.
pub fn white(c: char) -> (b: bool)
    ensures
        b == is_white(c),
{
    let u: u32 = c as u32;
    (0x9 <= u && u <= 0xd) || u == 0x20 || u == 0x85 || u == 0xa0 || u == 0x1680 || (0x2000 <= u
        && u <= 0x200a) || u == 0x2028 || u == 0x2029 || u == 0x202f || u == 0x205f || u == 0x3000
}

/// The words of a text.
pub fn split_words(v: &Vec<char>) -> (r: Vec<Vec<char>>)
    ensures
        char_views(r@) == words(v@),
{
    let mut r: Vec<Vec<char>> = Vec::new();
    let mut i: usize = 0;
    assert(v@.skip(0) =~= v@);
    assert(char_views(r@) + words(v@) =~= words(v@));
    while i < v.len()
        invariant
            i <= v.len(),
            char_views(r@) + words(v@.skip(i as int)) == words(v@),
        decreases v.len() - i,
    {
        let ghost rest = v@.skip(i as int);
        assert(rest[0] == v@[i as int]);
        assert(rest.drop_first() =~= v@.skip(i + 1));
        if white(v[i]) {
            i += 1;
        } else {
            let start: usize = i;
            while i < v.len() && !white(v[i])
                invariant
                    start <= i <= v.len(),
                    forall|j: int| start <= j < i ==> !is_white(#[trigger] v@[j]),
                decreases v.len() - i,
            {
                i += 1;
            }
            let ghost n = i - start;
            proof {
                assert forall|j: int| 0 <= j < n implies !is_white(#[trigger] rest[j]) by {
                    assert(rest[j] == v@[start + j]);
                }
                lemma_word_len_is(rest, n);
                assert(rest.take(n) =~= v@.subrange(start as int, i as int));
                assert(rest.skip(n) =~= v@.skip(i as int));
                if n >= rest.len() {
                    assert(rest =~= v@.subrange(start as int, i as int));
                    assert(words(v@.skip(i as int)) =~= Seq::<Seq<char>>::empty());
                }
            }
            let word = slice_of(v, start, i);
            let ghost before = r@;
            r.push(word);
            proof {
                assert(char_views(r@) =~= char_views(before).push(word@));
                assert(char_views(r@) + words(v@.skip(i as int)) =~= char_views(before) + words(
                    rest,
                ));
            }
        }
    }
    assert(v@.skip(i as int) =~= Seq::<char>::empty());
    assert(char_views(r@) + Seq::<Seq<char>>::empty() =~= char_views(r@));
    r
}

/// `v` without the white space at its start.
pub fn without_lead(v: &Vec<char>) -> (r: Vec<char>)
    ensures
        r@ == trim_start(v@),
{
    let mut i: usize = 0;
    assert(v@.skip(0) =~= v@);
    while i < v.len() && white(v[i])
        invariant
            i <= v.len(),
            trim_start(v@.skip(i as int)) == trim_start(v@),
        decreases v.len() - i,
    {
        assert(v@.skip(i as int)[0] == v@[i as int]);
        assert(v@.skip(i as int).drop_first() =~= v@.skip(i + 1));
        i += 1;
    }
    let r = slice_of(v, i, v.len());
    assert(r@ =~= v@.skip(i as int));
    r
}

/// `v` without the white space at its end.
pub fn without_tail(v: &Vec<char>) -> (r: Vec<char>)
    ensures
        r@ == trim_end(v@),
{
    let mut n: usize = v.len();
    assert(v@.take(n as int) =~= v@);
    while n > 0 && white(v[n - 1])
        invariant
            n <= v.len(),
            trim_end(v@.take(n as int)) == trim_end(v@),
        decreases n,
    {
        assert(v@.take(n as int).last() == v@[n - 1]);
        assert(v@.take(n as int).drop_last() =~= v@.take(n - 1));
        n -= 1;
    }
    let r = slice_of(v, 0, n);
    assert(r@ =~= v@.take(n as int));
    r
}

/// `v` without the white space around it.
pub fn trimmed(v: &Vec<char>) -> (r: Vec<char>)
    ensures
        r@ == trim(v@),
{
    without_tail(&without_lead(v))
}

/// The pieces of `v` between occurrences of `sep`.
pub fn split_at(v: &Vec<char>, sep: char) -> (r: Vec<Vec<char>>)
    ensures
        char_views(r@) == pieces(v@, sep),
        r@.len() > 0,
{
    let mut r: Vec<Vec<char>> = Vec::new();
    let mut start: usize = 0;
    assert(v@.skip(0) =~= v@);
    assert(char_views(r@) + pieces(v@, sep) =~= pieces(v@, sep));
    loop
        invariant
            start <= v.len(),
            char_views(r@) + pieces(v@.skip(start as int), sep) == pieces(v@, sep),
        decreases v.len() - start,
    {
        let ghost rest = v@.skip(start as int);
        let mut i: usize = start;
        while i < v.len() && v[i] != sep
            invariant
                start <= i <= v.len(),
                forall|j: int| start <= j < i ==> #[trigger] v@[j] != sep,
            decreases v.len() - i,
        {
            i += 1;
        }
        let ghost n = i - start;
        proof {
            assert forall|j: int| 0 <= j < n implies #[trigger] rest[j] != sep by {
                assert(rest[j] == v@[start + j]);
            }
            if n < rest.len() {
                assert(rest[n] == v@[i as int]);
            }
            lemma_run_len_is(rest, sep, n);
        }
        let piece = slice_of(v, start, i);
        let ghost before = r@;
        r.push(piece);
        proof {
            assert(char_views(r@) =~= char_views(before).push(piece@));
        }
        if i >= v.len() {
            proof {
                assert(piece@ =~= rest);
                assert(char_views(before).push(rest) =~= char_views(before) + seq![rest]);
            }
            return r;
        }
        proof {
            assert(piece@ =~= rest.take(n));
            assert(rest.skip(n + 1) =~= v@.skip(i + 1));
            assert(char_views(r@) + pieces(v@.skip(i + 1), sep) =~= char_views(before) + pieces(
                rest,
                sep,
            ));
        }
        start = i + 1;
    }
}

/// The unsigned number that `v` writes down.
pub fn parse_usize(v: &Vec<char>) -> (r: Option<usize>)
    ensures
        r is Some <==> unsigned(v@, usize::MAX as nat) is Some,
        r matches Some(n) ==> unsigned(v@, usize::MAX as nat) == Some(n as nat),
{
    let start: usize = if v.len() > 0 && v[0] == '+' {
        1
    } else {
        0
    };
    let ghost digits = v@.skip(start as int);
    proof {
        if start == 0 {
            assert(digits =~= v@);
        }
    }
    if start >= v.len() {
        return None;
    }
    let mut n: usize = 0;
    let mut i: usize = start;
    assert(digits.take(0) =~= Seq::<char>::empty());
    while i < v.len()
        invariant
            start <= i <= v.len(),
            digits == v@.skip(start as int),
            digits == (if v@.len() > 0 && v@[0] == '+' { v@.skip(1) } else { v@ }),
            all_digits(digits.take(i - start)),
            n == digits_value(digits.take(i - start)),
        decreases v.len() - i,
    {
        let c = v[i];
        assert(digits[i - start] == c);
        if !('0' <= c && c <= '9') {
            assert(!is_digit(digits[i - start]));
            return None;
        }
        let d: usize = (c as u32 - '0' as u32) as usize;
        let ghost next = digits.take(i + 1 - start);
        proof {
            assert(next.drop_last() =~= digits.take(i - start));
            assert forall|j: int| 0 <= j < next.len() implies is_digit(#[trigger] next[j]) by {
                if j < next.len() - 1 {
                    assert(next[j] == digits.take(i - start)[j]);
                }
            }
            assert(digits_value(next) == n * 10 + d);
            if all_digits(digits) {
                lemma_digits_value_prefix(digits, i + 1 - start);
            }
        }
        if n > (usize::MAX - d) / 10 {
            assert(n * 10 + d > usize::MAX);
            return None;
        }
        n = n * 10 + d;
        i += 1;
    }
    assert(digits.take(i - start) =~= digits);
    Some(n)
}

/// The unsigned number of at most 32 bits that `v` writes down.
pub fn parse_u32(v: &Vec<char>) -> (r: Option<u32>)
    ensures
        r is Some <==> unsigned(v@, u32::MAX as nat) is Some,
        r matches Some(n) ==> unsigned(v@, u32::MAX as nat) == Some(n as nat),
{
    match parse_usize(v) {
        Some(n) => if n <= u32::MAX as usize {
            Some(n as u32)
        } else {
            None
        },
        None => None,
    }
}

fn push_decimal(s: &mut String, n: u64)
    ensures
        final(s)@ == old(s)@ + decimal(n as nat),
    decreases n,
{
    if n >= 10 {
        push_decimal(s, n / 10);
    }
    let d: u8 = (n % 10) as u8;
    s.push((48u8 + d) as char);
    proof {
        assert(decimal(n as nat).last() == digit_char((n % 10) as nat));
        assert(s@ =~= old(s)@ + decimal(n as nat));
    }
}

/// `n` in decimal.
pub fn number(n: u64) -> (s: String)
    ensures
        s@ == decimal(n as nat),
{
    let mut s = String::new();
    push_decimal(&mut s, n);
    assert(s@ =~= decimal(n as nat));
    s
}

/// A copy of `text`.
pub fn owned(text: &str) -> (s: String)
    ensures
        s@ == text@,
{
    String::from_str(text)
}

/// Two texts are the same but for case exactly where they are as long, and every character of one
/// is that of the other or the same letter in the other case.
pub proof fn law_only_the_case_of_letters_is_ignored(a: Seq<char>, b: Seq<char>)
    ensures
        same_ignoring_case(a, b) <==> a.len() == b.len() && forall|i: int|
            0 <= i < a.len() ==> {
                ||| #[trigger] a[i] == b[i]
                ||| 'A' <= a[i] && a[i] <= 'Z' && b[i] as u32 == a[i] as u32 + 32
                ||| 'A' <= b[i] && b[i] <= 'Z' && a[i] as u32 == b[i] as u32 + 32
            },
{
    let agree = |i: int|
        {
            ||| a[i] == b[i]
            ||| 'A' <= a[i] && a[i] <= 'Z' && b[i] as u32 == a[i] as u32 + 32
            ||| 'A' <= b[i] && b[i] <= 'Z' && a[i] as u32 == b[i] as u32 + 32
        };
    if same_ignoring_case(a, b) {
        assert(lower(a).len() == lower(b).len());
        assert forall|i: int| 0 <= i < a.len() implies {
            ||| #[trigger] a[i] == b[i]
            ||| 'A' <= a[i] && a[i] <= 'Z' && b[i] as u32 == a[i] as u32 + 32
            ||| 'A' <= b[i] && b[i] <= 'Z' && a[i] as u32 == b[i] as u32 + 32
        } by {
            assert(lower(a)[i] == lower(b)[i]);
            lemma_lower_char(a[i]);
            lemma_lower_char(b[i]);
        }
    }
    if a.len() == b.len() && forall|i: int| 0 <= i < a.len() ==> #[trigger] agree(i) {
        assert forall|i: int| 0 <= i < a.len() implies lower(a)[i] == lower(b)[i] by {
            assert(agree(i));
            lemma_lower_char(a[i]);
            lemma_lower_char(b[i]);
            assert(lower_char(a[i]) as u32 == lower_char(b[i]) as u32);
        }
        assert(lower(a) =~= lower(b));
    } else if a.len() == b.len() {
        let i = choose|i: int| 0 <= i < a.len() && !(#[trigger] agree(i));
        assert(a[i] == a[i]);
    }
}

proof fn lemma_lower_char(c: char)
    ensures
        'A' <= c && c <= 'Z' ==> lower_char(c) as u32 == c as u32 + 32,
        !('A' <= c && c <= 'Z') ==> lower_char(c) == c,
{
}

/// Pieces put together again, with `sep` between each two of them.
pub open spec fn rejoined(list: Seq<Seq<char>>, sep: char) -> Seq<char>
    decreases list.len(),
{
    if list.len() == 0 {
        seq![]
    } else if list.len() == 1 {
        list[0]
    } else {
        list[0].push(sep) + rejoined(list.drop_first(), sep)
    }
}

/// The pieces of a text hold no separator, and put together again they are the text.
pub proof fn law_pieces_rejoin(s: Seq<char>, sep: char)
    ensures
        pieces(s, sep).len() > 0,
        rejoined(pieces(s, sep), sep) == s,
        forall|i: int|
            0 <= i < pieces(s, sep).len() ==> !(#[trigger] pieces(s, sep)[i]).contains(sep),
    decreases s.len(),
{
    lemma_run_len(s, sep);
    let n = run_len(s, sep) as int;
    if n >= s.len() {
        assert(pieces(s, sep) =~= seq![s]);
    } else {
        let rest = s.skip(n + 1);
        law_pieces_rejoin(rest, sep);
        let all = pieces(s, sep);
        assert(all.drop_first() =~= pieces(rest, sep));
        assert(all[0] == s.take(n));
        assert(s.take(n).push(sep) + rest =~= s);
        assert forall|i: int| 0 <= i < all.len() implies !(#[trigger] all[i]).contains(sep) by {
            if i > 0 {
                assert(all[i] == pieces(rest, sep)[i - 1]);
            }
        }
    }
}

proof fn lemma_run_len(s: Seq<char>, sep: char)
    ensures
        run_len(s, sep) <= s.len(),
        forall|i: int| 0 <= i < run_len(s, sep) ==> #[trigger] s[i] != sep,
        run_len(s, sep) < s.len() ==> s[run_len(s, sep) as int] == sep,
    decreases s.len(),
{
    if s.len() > 0 && s[0] != sep {
        let t = s.drop_first();
        lemma_run_len(t, sep);
        assert forall|i: int| 0 <= i < run_len(s, sep) implies #[trigger] s[i] != sep by {
            if i > 0 {
                assert(t[i - 1] == s[i]);
            }
        }
        if run_len(s, sep) < s.len() {
            assert(t[run_len(t, sep) as int] == s[run_len(s, sep) as int]);
        }
    }
}

/// Texts without the separator, put together with it, come apart into just those texts.
pub proof fn law_what_was_joined_comes_apart(list: Seq<Seq<char>>, sep: char)
    requires
        list.len() > 0,
        forall|i: int| 0 <= i < list.len() ==> !(#[trigger] list[i]).contains(sep),
    ensures
        pieces(rejoined(list, sep), sep) == list,
    decreases list.len(),
{
    let s = rejoined(list, sep);
    let first = list[0];
    assert(!list[0].contains(sep));
    assert forall|i: int| 0 <= i < first.len() implies first[i] != sep by {
        assert(first.contains(first[i]));
    }
    if list.len() == 1 {
        lemma_run_len_is(s, sep, s.len() as int);
        assert(pieces(s, sep) =~= list);
    } else {
        let rest = list.drop_first();
        assert forall|i: int| 0 <= i < rest.len() implies !(#[trigger] rest[i]).contains(sep) by {
            assert(rest[i] == list[i + 1]);
        }
        law_what_was_joined_comes_apart(rest, sep);
        assert(s[first.len() as int] == sep);
        assert forall|i: int| 0 <= i < first.len() implies #[trigger] s[i] != sep by {
            assert(s[i] == first[i]);
        }
        lemma_run_len_is(s, sep, first.len() as int);
        assert(s.take(first.len() as int) =~= first);
        assert(s.skip(first.len() as int + 1) =~= rejoined(rest, sep));
        assert(pieces(s, sep) =~= list);
    }
}

/// Trimming takes off white space at both ends, all of it and nothing else: what is left is a run
/// of the text with only white space around it, and neither begins nor ends with any.
pub proof fn law_trimming_takes_white_space_alone(s: Seq<char>)
    ensures
        exists|a: int, b: int|
            {
                &&& 0 <= a <= b <= s.len()
                &&& #[trigger] s.subrange(a, b) == trim(s)
                &&& forall|i: int| 0 <= i < a || b <= i < s.len() ==> is_white(#[trigger] s[i])
            },
        trim(s).len() > 0 ==> !is_white(trim(s)[0]) && !is_white(trim(s).last()),
{
    lemma_trim_start(s);
    let t = trim_start(s);
    lemma_trim_end(t);
    let a = s.len() - t.len();
    let b = a + trim_end(t).len();
    assert(s.subrange(a, b) =~= trim(s));
    assert forall|i: int| 0 <= i < a || b <= i < s.len() implies is_white(#[trigger] s[i]) by {
        if i >= b {
            assert(t[i - a] == s[i]);
        }
    }
}

proof fn lemma_trim_start(s: Seq<char>)
    ensures
        trim_start(s).len() <= s.len(),
        trim_start(s) == s.skip(s.len() - trim_start(s).len()),
        forall|i: int| 0 <= i < s.len() - trim_start(s).len() ==> is_white(#[trigger] s[i]),
        trim_start(s).len() > 0 ==> !is_white(trim_start(s)[0]),
    decreases s.len(),
{
    if s.len() > 0 && is_white(s[0]) {
        let t = s.drop_first();
        lemma_trim_start(t);
        assert(trim_start(s) =~= s.skip(s.len() - trim_start(s).len()));
        assert forall|i: int| 0 <= i < s.len() - trim_start(s).len() implies is_white(
            #[trigger] s[i],
        ) by {
            if i > 0 {
                assert(t[i - 1] == s[i]);
            }
        }
    } else {
        assert(s.skip(0) =~= s);
    }
}

proof fn lemma_trim_end(s: Seq<char>)
    ensures
        trim_end(s).len() <= s.len(),
        trim_end(s) == s.take(trim_end(s).len() as int),
        forall|i: int| trim_end(s).len() <= i < s.len() ==> is_white(#[trigger] s[i]),
        trim_end(s).len() > 0 ==> !is_white(trim_end(s).last()),
    decreases s.len(),
{
    if s.len() > 0 && is_white(s.last()) {
        let t = s.drop_last();
        lemma_trim_end(t);
        assert(trim_end(s) =~= s.take(trim_end(s).len() as int));
        assert forall|i: int| trim_end(s).len() <= i < s.len() implies is_white(#[trigger] s[i]) by {
            if i < t.len() {
                assert(t[i] == s[i]);
            }
        }
    } else {
        assert(s.take(s.len() as int) =~= s);
    }
}

/// Blanks, tabs and line ends are white space, and no printing ASCII character is.
pub proof fn law_printing_characters_are_not_white(c: char)
    ensures
        c == ' ' || c == '\t' || c == '\n' || c == '\r' ==> is_white(c),
        '!' <= c && c <= '~' ==> !is_white(c),
        c as u32 == 0xa0 || c as u32 == 0x3000 ==> is_white(c),
{
}

/// Every word of a text is a run without white space, and all that is not white space is in some
/// word, in order.
pub proof fn law_words_hold_all_but_white_space(s: Seq<char>)
    ensures
        words(s).flatten() == s.filter(|c: char| !is_white(c)),
        forall|i: int|
            0 <= i < words(s).len() ==> (#[trigger] words(s)[i]).len() > 0 && forall|j: int|
                0 <= j < words(s)[i].len() ==> !is_white(#[trigger] words(s)[i][j]),
    decreases s.len(),
{
    let dark = |c: char| !is_white(c);
    reveal(Seq::filter);
    if s.len() == 0 {
    } else if is_white(s[0]) {
        let rest = s.drop_first();
        law_words_hold_all_but_white_space(rest);
        lemma_filter_front(s, dark);
    } else {
        lemma_word_len(s);
        let n = word_len(s) as int;
        let first = s.take(n);
        lemma_filter_whole(first, dark);
        if n >= s.len() {
            assert(first =~= s);
            assert(words(s) =~= seq![s]);
            assert(seq![s].drop_first() =~= Seq::<Seq<char>>::empty());
            reveal_with_fuel(Seq::flatten, 2);
            assert(seq![s].flatten() =~= s);
        } else {
            let rest = s.skip(n);
            law_words_hold_all_but_white_space(rest);
            let all = words(s);
            assert(all.drop_first() =~= words(rest));
            assert(all[0] == first);
            lemma_filter_split(s, n, dark);
            assert(all.flatten() =~= first + words(rest).flatten());
            assert forall|i: int| 0 <= i < all.len() implies (#[trigger] all[i]).len() > 0
                && forall|j: int| 0 <= j < all[i].len() ==> !is_white(#[trigger] all[i][j]) by {
                if i > 0 {
                    assert(all[i] == words(rest)[i - 1]);
                }
            }
        }
    }
}

proof fn lemma_filter_front<A>(s: Seq<A>, keep: spec_fn(A) -> bool)
    requires
        s.len() > 0,
        !keep(s[0]),
    ensures
        s.filter(keep) == s.drop_first().filter(keep),
    decreases s.len(),
{
    reveal(Seq::filter);
    if s.len() == 1 {
        assert(s.drop_last() =~= Seq::<A>::empty());
        assert(s.drop_first() =~= Seq::<A>::empty());
    } else {
        lemma_filter_front(s.drop_last(), keep);
        assert(s.drop_last().drop_first() =~= s.drop_first().drop_last());
        assert(s.drop_first().last() == s.last());
    }
}

proof fn lemma_filter_whole<A>(s: Seq<A>, keep: spec_fn(A) -> bool)
    requires
        forall|i: int| 0 <= i < s.len() ==> keep(#[trigger] s[i]),
    ensures
        s.filter(keep) == s,
    decreases s.len(),
{
    reveal(Seq::filter);
    if s.len() > 0 {
        assert forall|i: int| 0 <= i < s.drop_last().len() implies keep(
            #[trigger] s.drop_last()[i],
        ) by {
            assert(s.drop_last()[i] == s[i]);
        }
        lemma_filter_whole(s.drop_last(), keep);
        assert(keep(s[s.len() - 1]));
        assert(s =~= s.drop_last().push(s.last()));
    }
}

proof fn lemma_filter_split<A>(s: Seq<A>, n: int, keep: spec_fn(A) -> bool)
    requires
        0 <= n <= s.len(),
    ensures
        s.filter(keep) == s.take(n).filter(keep) + s.skip(n).filter(keep),
    decreases s.len() - n,
{
    reveal(Seq::filter);
    if n == s.len() {
        assert(s.take(n) =~= s);
        assert(s.skip(n) =~= Seq::<A>::empty());
        assert(s.filter(keep) + Seq::<A>::empty() =~= s.filter(keep));
    } else {
        let t = s.drop_last();
        lemma_filter_split(t, n, keep);
        assert(t.take(n) =~= s.take(n));
        assert(s.skip(n).drop_last() =~= t.skip(n));
        assert(s.skip(n).last() == s.last());
        assert(s.filter(keep) =~= s.take(n).filter(keep) + s.skip(n).filter(keep));
    }
}

/// White space parts words and nothing else does: the words of two texts with white space between
/// them are those of the first and then those of the second.
pub proof fn law_white_space_parts_words(a: Seq<char>, c: char, b: Seq<char>)
    requires
        is_white(c),
    ensures
        words(a.push(c) + b) == words(a) + words(b),
        (forall|i: int| 0 <= i < a.len() ==> !is_white(#[trigger] a[i])) && a.len() > 0 ==> words(a)
            == seq![a],
    decreases a.len(),
{
    let s = a.push(c) + b;
    lemma_word_len(a);
    if a.len() == 0 {
        assert(s.drop_first() =~= b);
        assert(words(a) + words(b) =~= words(b));
    } else if is_white(a[0]) {
        law_white_space_parts_words(a.drop_first(), c, b);
        assert(s.drop_first() =~= a.drop_first().push(c) + b);
        assert(!(forall|i: int| 0 <= i < a.len() ==> !is_white(#[trigger] a[i])));
    } else {
        let n = word_len(a) as int;
        assert forall|i: int| 0 <= i < n implies !is_white(#[trigger] s[i]) by {
            assert(s[i] == a[i]);
        }
        if n < a.len() {
            assert(s[n] == a[n]);
        } else {
            assert(s[n] == c);
        }
        lemma_word_len_is(s, n);
        assert(s.take(n) =~= a.take(n));
        if n < a.len() {
            law_white_space_parts_words(a.skip(n), c, b);
            assert(s.skip(n) =~= a.skip(n).push(c) + b);
            assert(words(s) =~= words(a) + words(b));
        } else {
            assert(a.take(n) =~= a);
            assert(s.skip(n)[0] == c);
            assert(s.skip(n).drop_first() =~= b);
            assert(words(s.skip(n)) == words(b));
            assert(words(a) == seq![a]);
            assert(words(s) =~= words(a) + words(b));
        }
        if forall|i: int| 0 <= i < a.len() ==> !is_white(#[trigger] a[i]) {
            lemma_word_len_is(a, a.len() as int);
        }
    }
}

/// A number is read exactly from its decimal digits, with or without a plus sign, where it is no
/// greater than the most that is asked for; what holds anything else is no number.
pub proof fn law_numbers_read_back(n: nat, max: nat, s: Seq<char>)
    ensures
        n <= max ==> unsigned(decimal(n), max) == Some(n) && unsigned(
            seq!['+'] + decimal(n),
            max,
        ) == Some(n),
        n > max ==> unsigned(decimal(n), max) is None,
        unsigned(Seq::empty(), max) is None,
        (exists|i: int| 0 < i < s.len() && !('0' <= #[trigger] s[i] && s[i] <= '9')) ==> unsigned(
            s,
            max,
        ) is None,
        s.len() > 0 && !('0' <= s[0] && s[0] <= '9') && s[0] != '+' ==> unsigned(s, max) is None,
        unsigned(s, max) matches Some(v) ==> v <= max,
{
    lemma_decimal(n);
    lemma_digit_plain(decimal(n)[0]);
    assert((seq!['+'] + decimal(n)).skip(1) =~= decimal(n));
    if exists|i: int| 0 < i < s.len() && !('0' <= #[trigger] s[i] && s[i] <= '9') {
        let i = choose|i: int| 0 < i < s.len() && !('0' <= #[trigger] s[i] && s[i] <= '9');
        assert(s.skip(1)[i - 1] == s[i]);
        assert(!is_digit(s[i]));
        assert(!is_digit(s.skip(1)[i - 1]));
    }
    if s.len() > 0 {
        assert(is_digit(s[0]) == ('0' <= s[0] && s[0] <= '9'));
    }
}

/// The decimal form of a number has its last digit last and the form of its tenth before that.
pub proof fn law_decimal_is_positional(n: nat, d: nat)
    requires
        d < 10,
    ensures
        decimal(d).len() == 1,
        decimal(d)[0] as u32 == 48 + d,
        n > 0 ==> decimal(10 * n + d) == decimal(n) + decimal(d),
{
    assert((10 * n + d) / 10 == n && (10 * n + d) % 10 == d);
    if n > 0 {
        assert(decimal(10 * n + d) =~= decimal(n) + decimal(d));
    }
}

/// A text stands in another exactly where the other is made of it and what is before and behind.
pub proof fn law_a_text_occurs_between_the_rest<T>(needle: Seq<T>, before: Seq<T>, behind: Seq<T>)
    ensures
        occurs(needle, before + needle + behind),
        behind.len() < needle.len() ==> !occurs(needle, behind),
{
    let hay = before + needle + behind;
    assert(hay.subrange(before.len() as int, (before.len() + needle.len()) as int) =~= needle);
    assert(occurs_at(needle, hay, before.len() as int));
}

} // verus!
