//! Bindings: which buttons and keys a name in a preset stands for.
//!
//! A binding is a list of alternatives, and each of them is a chord: `KEY_LEFTALT+BTN_MIDDLE` is
//! one binding rather than two.

use crate::config::schema::Datum;
use crate::daemon::capture::joined;
use crate::daemon::keys::{code_for, key_code, key_name};
use crate::text::{
    char_views, chars_of, lemma_run_len_is, owned, pieces, run_len, split_at, string_of, trim,
    trimmed, views,
};
use vstd::prelude::*;

verus! {

/// The texts among a list of values, in order.
pub open spec fn texts(items: Seq<Datum>) -> Seq<Seq<char>>
    decreases items.len(),
{
    if items.len() == 0 {
        seq![]
    } else {
        match items.last() {
            Datum::String(s) => texts(items.drop_last()).push(s@),
            _ => texts(items.drop_last()),
        }
    }
}

/// The alternatives of a binding: a name or a list of names. Anything else binds nothing.
pub open spec fn alternatives(v: Datum) -> Seq<Seq<char>> {
    match v {
        Datum::String(s) => seq![s@],
        Datum::Array(items) => texts(items@),
        _ => seq![],
    }
}

/// The codes of a list of names, if every one of them is the name of a key or button. White space
/// around a name does not count.
pub open spec fn codes(names: Seq<Seq<char>>) -> Option<Seq<u16>>
    decreases names.len(),
{
    if names.len() == 0 {
        Some(seq![])
    } else {
        match (codes(names.drop_last()), key_code(trim(names.last()))) {
            (Some(rest), Some(code)) => Some(rest.push(code)),
            _ => None,
        }
    }
}

/// The chord that a text names: its keys and buttons, with plus signs between them.
pub open spec fn chord_of(text: Seq<char>) -> Option<Seq<u16>> {
    codes(pieces(text, '+'))
}

/// The chords of those alternatives that name one, in order.
pub open spec fn chords_of(names: Seq<Seq<char>>) -> Seq<Seq<u16>>
    decreases names.len(),
{
    if names.len() == 0 {
        seq![]
    } else {
        match chord_of(names.last()) {
            Some(chord) => chords_of(names.drop_last()).push(chord),
            None => chords_of(names.drop_last()),
        }
    }
}

/// The alternatives that name no chord, in order.
pub open spec fn nameless(names: Seq<Seq<char>>) -> Seq<Seq<char>>
    decreases names.len(),
{
    if names.len() == 0 {
        seq![]
    } else if chord_of(names.last()) is None {
        nameless(names.drop_last()).push(names.last())
    } else {
        nameless(names.drop_last())
    }
}

pub open spec fn chord_views(chords: Seq<Vec<u16>>) -> Seq<Seq<u16>> {
    chords.map_values(|c: Vec<u16>| c@)
}

/// The chord that a text names, if it names one.
pub fn chord(text: &str) -> (r: Option<Vec<u16>>)
    ensures
        r is Some <==> chord_of(text@) is Some,
        r matches Some(c) ==> chord_of(text@) == Some(c@),
{
    let parts = split_at(&chars_of(text), '+');
    let ghost all = char_views(parts@);
    let mut out: Vec<u16> = Vec::new();
    let mut i: usize = 0;
    proof {
        assert(all.take(0) =~= Seq::<Seq<char>>::empty());
        assert(out@ =~= Seq::<u16>::empty());
    }
    while i < parts.len()
        invariant
            i <= parts.len(),
            all == char_views(parts@),
            all == pieces(text@, '+'),
            codes(all.take(i as int)) == Some(out@),
        decreases parts.len() - i,
    {
        let ghost now = all.take(i + 1);
        proof {
            assert(now.drop_last() =~= all.take(i as int));
            assert(now.last() == parts@[i as int]@);
        }
        match code_for(string_of(&trimmed(&parts[i])).as_str()) {
            Some(code) => {
                out.push(code);
            },
            None => {
                proof {
                    assert(codes(now) is None);
                    lemma_codes_need_all(all, i + 1);
                }
                return None;
            },
        }
        i += 1;
    }
    assert(all.take(i as int) =~= all);
    Some(out)
}

/// Names of which some do not count are no chord together either.
proof fn lemma_codes_need_all(names: Seq<Seq<char>>, n: int)
    requires
        0 <= n <= names.len(),
        codes(names.take(n)) is None,
    ensures
        codes(names) is None,
    decreases names.len(),
{
    if n == names.len() {
        assert(names.take(n) =~= names);
    } else {
        assert(names.drop_last().take(n) =~= names.take(n));
        lemma_codes_need_all(names.drop_last(), n);
    }
}

fn texts_of(items: &Vec<Datum>) -> (r: Vec<String>)
    ensures
        views(r@) == texts(items@),
{
    let mut r: Vec<String> = Vec::new();
    let mut i: usize = 0;
    proof {
        assert(items@.take(0) =~= Seq::<Datum>::empty());
        assert(views(r@) =~= Seq::<Seq<char>>::empty());
    }
    while i < items.len()
        invariant
            i <= items.len(),
            views(r@) == texts(items@.take(i as int)),
        decreases items.len() - i,
    {
        proof {
            assert(items@.take(i + 1).drop_last() =~= items@.take(i as int));
            assert(items@.take(i + 1).last() == items@[i as int]);
        }
        if let Datum::String(s) = &items[i] {
            let ghost before = r@;
            r.push(owned(s.as_str()));
            assert(views(r@) =~= views(before).push(s@));
        }
        i += 1;
    }
    assert(items@.take(i as int) =~= items@);
    r
}

/// The chords that a binding engages by, and those of its alternatives that name none.
pub fn binding(v: &Datum) -> (r: (Vec<Vec<u16>>, Vec<String>))
    ensures
        chord_views(r.0@) == chords_of(alternatives(*v)),
        views(r.1@) == nameless(alternatives(*v)),
{
    let names: Vec<String> = match v {
        Datum::String(s) => {
            let one = owned(s.as_str());
            let list = vec![one];
            assert(views(list@) =~= seq![s@]);
            list
        },
        Datum::Array(items) => texts_of(items),
        _ => {
            let none: Vec<String> = Vec::new();
            assert(views(none@) =~= Seq::<Seq<char>>::empty());
            none
        },
    };
    let ghost all = views(names@);
    assert(all == alternatives(*v));
    let mut chords: Vec<Vec<u16>> = Vec::new();
    let mut bad: Vec<String> = Vec::new();
    let mut i: usize = 0;
    proof {
        assert(all.take(0) =~= Seq::<Seq<char>>::empty());
        assert(chord_views(chords@) =~= Seq::<Seq<u16>>::empty());
        assert(views(bad@) =~= Seq::<Seq<char>>::empty());
    }
    while i < names.len()
        invariant
            i <= names.len(),
            all == views(names@),
            chord_views(chords@) == chords_of(all.take(i as int)),
            views(bad@) == nameless(all.take(i as int)),
        decreases names.len() - i,
    {
        let name = names[i].as_str();
        proof {
            assert(all.take(i + 1).drop_last() =~= all.take(i as int));
            assert(all.take(i + 1).last() == name@);
        }
        match chord(name) {
            Some(c) => {
                let ghost before = chords@;
                let ghost added = c@;
                chords.push(c);
                assert(chord_views(chords@) =~= chord_views(before).push(added));
            },
            None => {
                let ghost before = bad@;
                bad.push(owned(name));
                assert(views(bad@) =~= views(before).push(name@));
            },
        }
        i += 1;
    }
    assert(all.take(i as int) =~= all);
    (chords, bad)
}

/// A text without a plus sign is a single piece.
proof fn lemma_one_piece(s: Seq<char>)
    requires
        !s.contains('+'),
    ensures
        pieces(s, '+') == seq![s],
{
    assert forall|i: int| 0 <= i < s.len() implies #[trigger] s[i] != '+' by {
        assert(s.contains(s[i]));
    }
    lemma_run_len_is(s, '+', s.len() as int);
}

/// What follows the last plus sign is the last piece.
proof fn lemma_last_piece(a: Seq<char>, b: Seq<char>)
    requires
        !b.contains('+'),
    ensures
        pieces(a + seq!['+'] + b, '+') == pieces(a, '+').push(b),
    decreases a.len(),
{
    let s = a + seq!['+'] + b;
    let n = run_len(a, '+') as int;
    lemma_run(a);
    assert forall|i: int| 0 <= i < n implies #[trigger] s[i] != '+' by {
        assert(s[i] == a[i]);
    }
    assert(s[n] == '+');
    lemma_run_len_is(s, '+', n);
    if n >= a.len() {
        assert(s.take(n) =~= a);
        assert(s.skip(n + 1) =~= b);
        lemma_one_piece(b);
        assert(pieces(s, '+') =~= pieces(a, '+').push(b));
    } else {
        let rest = a.skip(n + 1);
        assert(s.take(n) =~= a.take(n));
        assert(s.skip(n + 1) =~= rest + seq!['+'] + b);
        lemma_last_piece(rest, b);
        assert(pieces(s, '+') =~= pieces(a, '+').push(b));
    }
}

proof fn lemma_run(s: Seq<char>)
    ensures
        run_len(s, '+') <= s.len(),
        forall|i: int| 0 <= i < run_len(s, '+') ==> #[trigger] s[i] != '+',
        run_len(s, '+') < s.len() ==> s[run_len(s, '+') as int] == '+',
    decreases s.len(),
{
    if s.len() > 0 && s[0] != '+' {
        let t = s.drop_first();
        lemma_run(t);
        assert forall|i: int| 0 <= i < run_len(s, '+') implies #[trigger] s[i] != '+' by {
            if i > 0 {
                assert(s[i] == t[i - 1]);
            }
        }
    }
}

/// The names of a list of codes.
pub open spec fn names_of(list: Seq<u16>) -> Seq<Seq<char>> {
    list.map_values(|c: u16| key_name(c))
}

/// Whether a code has a name that a binding can hold: it can be looked up, and has no plus sign
/// and no white space around it.
pub open spec fn has_plain_name(code: u16) -> bool {
    &&& key_code(key_name(code)) == Some(code)
    &&& !key_name(code).contains('+')
    &&& trim(key_name(code)) == key_name(code)
}

/// A captured chord, as its names were joined, binds the very codes that were pressed.
pub proof fn law_a_captured_chord_binds_back(list: Seq<u16>)
    requires
        list.len() > 0,
        forall|i: int| 0 <= i < list.len() ==> has_plain_name(#[trigger] list[i]),
    ensures
        chord_of(joined(names_of(list))) == Some(list),
    decreases list.len(),
{
    lemma_joined(list);
    lemma_codes_of_names(list);
}

proof fn lemma_joined(list: Seq<u16>)
    requires
        list.len() > 0,
        forall|i: int| 0 <= i < list.len() ==> has_plain_name(#[trigger] list[i]),
    ensures
        pieces(joined(names_of(list)), '+') == names_of(list),
    decreases list.len(),
{
    let names = names_of(list);
    if list.len() == 1 {
        assert(has_plain_name(list[0]));
        lemma_one_piece(key_name(list[0]));
        assert(seq![key_name(list[0])] =~= names);
    } else {
        let shorter = list.drop_last();
        assert(names.drop_last() =~= names_of(shorter));
        assert forall|i: int| 0 <= i < shorter.len() implies has_plain_name(
            #[trigger] shorter[i],
        ) by {
            assert(shorter[i] == list[i]);
        }
        lemma_joined(shorter);
        assert(has_plain_name(list[list.len() - 1]));
        reveal_strlit("+");
        assert("+"@ =~= seq!['+']);
        lemma_last_piece(joined(names_of(shorter)), names.last());
        assert(names_of(shorter).push(names.last()) =~= names);
    }
}

proof fn lemma_codes_of_names(list: Seq<u16>)
    requires
        forall|i: int| 0 <= i < list.len() ==> has_plain_name(#[trigger] list[i]),
    ensures
        codes(names_of(list)) == Some(list),
    decreases list.len(),
{
    if list.len() == 0 {
        assert(names_of(list) =~= Seq::<Seq<char>>::empty());
        assert(list =~= Seq::<u16>::empty());
    } else {
        let shorter = list.drop_last();
        assert(names_of(list).drop_last() =~= names_of(shorter));
        assert forall|i: int| 0 <= i < shorter.len() implies has_plain_name(
            #[trigger] shorter[i],
        ) by {
            assert(shorter[i] == list[i]);
        }
        lemma_codes_of_names(shorter);
        assert(has_plain_name(list[list.len() - 1]));
        assert(shorter.push(list.last()) =~= list);
    }
}

/// A chord has one code for each name in it, in order, and there is none where any name stands for
/// nothing.
pub proof fn law_a_chord_has_a_code_for_each_name(names: Seq<Seq<char>>)
    ensures
        codes(names) matches Some(c) ==> c.len() == names.len() && forall|i: int|
            0 <= i < names.len() ==> key_code(trim(#[trigger] names[i])) == Some(c[i]),
        codes(names) is None <==> exists|i: int|
            0 <= i < names.len() && key_code(trim(#[trigger] names[i])) is None,
    decreases names.len(),
{
    if names.len() > 0 {
        let rest = names.drop_last();
        law_a_chord_has_a_code_for_each_name(rest);
        let last = names.len() - 1;
        assert(names.last() == names[last]);
        if codes(names) is Some {
            let c = codes(names)->0;
            assert forall|i: int| 0 <= i < names.len() implies key_code(trim(#[trigger] names[i]))
                == Some(c[i]) by {
                if i < last {
                    assert(rest[i] == names[i]);
                }
            }
        } else if codes(rest) is None {
            let i = choose|i: int| 0 <= i < rest.len() && key_code(trim(#[trigger] rest[i])) is None;
            assert(names[i] == rest[i]);
        } else {
            assert(key_code(trim(names[last])) is None);
        }
    }
}

/// Of the alternatives of a binding those that name a chord bind it, and the others are reported;
/// both keep their order, and none is lost.
pub proof fn law_every_alternative_binds_or_is_reported(names: Seq<Seq<char>>)
    ensures
        nameless(names) == names.filter(|n: Seq<char>| chord_of(n) is None),
        chords_of(names) == names.filter(|n: Seq<char>| chord_of(n) is Some).map_values(
            |n: Seq<char>| chord_of(n)->0,
        ),
        nameless(names).len() + chords_of(names).len() == names.len(),
    decreases names.len(),
{
    reveal(Seq::filter);
    let named = |n: Seq<char>| chord_of(n) is Some;
    let chord = |n: Seq<char>| chord_of(n)->0;
    if names.len() > 0 {
        let rest = names.drop_last();
        law_every_alternative_binds_or_is_reported(rest);
        if named(names.last()) {
            assert(names.filter(named).map_values(chord) =~= rest.filter(named).map_values(
                chord,
            ).push(chord(names.last())));
        } else {
            assert(names.filter(named) == rest.filter(named));
        }
    } else {
        assert(names.filter(named).map_values(chord) =~= Seq::<Seq<u16>>::empty());
    }
}

/// A text binds what it says, and a list what its texts say, in order; nothing else binds.
pub proof fn law_a_list_binds_each_of_its_texts(v: Datum)
    ensures
        v matches Datum::String(s) ==> alternatives(v) == seq![s@],
        v matches Datum::Array(items) ==> alternatives(v) == items@.filter(
            |d: Datum| d is String,
        ).map_values(|d: Datum| d->String_0@),
        !(v is String) && !(v is Array) ==> alternatives(v).len() == 0,
{
    if let Datum::Array(items) = v {
        lemma_texts(items@);
    }
}

proof fn lemma_texts(items: Seq<Datum>)
    ensures
        texts(items) == items.filter(|d: Datum| d is String).map_values(
            |d: Datum| d->String_0@,
        ),
    decreases items.len(),
{
    reveal(Seq::filter);
    let is_text = |d: Datum| d is String;
    let text = |d: Datum| d->String_0@;
    if items.len() > 0 {
        let rest = items.drop_last();
        lemma_texts(rest);
        if is_text(items.last()) {
            assert(items.filter(is_text).map_values(text) =~= rest.filter(is_text).map_values(
                text,
            ).push(text(items.last())));
        } else {
            assert(items.filter(is_text) == rest.filter(is_text));
        }
    } else {
        assert(items.filter(is_text).map_values(text) =~= Seq::<Seq<char>>::empty());
    }
}

} // verus!
