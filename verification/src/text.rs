//! Text as sequences of characters: conversion between `String` and
//! `Vec<char>`, splitting on a separator, lexical order and decimal rendering.

use crate::sorting::{lemma_sorted_maps, rank_order, sorted, stable_sort, Ranked};
use vstd::prelude::*;

verus! {

/// Appends one character to a string.
///
/// Assumed of `String::push`: the string afterwards is the string before
/// followed by `c`.
#[verifier::external_body]
pub(crate) fn push_char(s: &mut String, c: char)
    ensures
        final(s)@ == old(s)@.push(c),
{
    s.push(c)
}

/// The characters of `s`, in order.
pub fn chars_of(s: &str) -> (out: Vec<char>)
    ensures
        out@ == s@,
{
    let mut out: Vec<char> = Vec::new();
    for c in it: s.chars()
        invariant
            it.seq() == s@,
            out@ == s@.take(it.index() as int),
    {
        out.push(c);
        assert(s@.take(it.index() as int + 1) =~= s@.take(it.index() as int).push(c));
    }
    assert(s@.take(s@.len() as int) =~= s@);
    out
}

/// The string made of `chars`, in order.
pub fn text_of(chars: &Vec<char>) -> (out: String)
    ensures
        out@ == chars@,
{
    let mut out = String::new();
    let mut i: usize = 0;
    while i < chars.len()
        invariant
            i <= chars.len(),
            out@ == chars@.take(i as int),
        decreases chars.len() - i,
    {
        push_char(&mut out, chars[i]);
        assert(chars@.take(i as int + 1) =~= chars@.take(i as int).push(chars@[i as int]));
        i = i + 1;
    }
    assert(chars@.take(chars.len() as int) =~= chars@);
    out
}

/// The views of a vector of strings, in order.
pub open spec fn texts(v: Seq<String>) -> Seq<Seq<char>> {
    v.map_values(|s: String| s@)
}

/// The views of a vector of character vectors, in order.
pub open spec fn pieces(v: Seq<Vec<char>>) -> Seq<Seq<char>> {
    v.map_values(|p: Vec<char>| p@)
}

/// The segments of `s` between occurrences of `sep`: every segment is free
/// of `sep`, and there is one segment more than there are separators.
pub open spec fn split_on(s: Seq<char>, sep: char) -> Seq<Seq<char>>
    decreases s.len(),
{
    if s.len() == 0 {
        seq![Seq::<char>::empty()]
    } else {
        let head = split_on(s.drop_last(), sep);
        if s.last() == sep {
            head.push(Seq::<char>::empty())
        } else {
            head.drop_last().push(head.last().push(s.last()))
        }
    }
}

/// A split always yields at least one segment.
pub proof fn lemma_split_nonempty(s: Seq<char>, sep: char)
    ensures
        split_on(s, sep).len() >= 1,
    decreases s.len(),
{
    if s.len() > 0 {
        lemma_split_nonempty(s.drop_last(), sep);
    }
}

/// The segments put together again, with `sep` between them.
pub open spec fn joined(segments: Seq<Seq<char>>, sep: char) -> Seq<char>
    decreases segments.len(),
{
    if segments.len() == 0 {
        Seq::empty()
    } else if segments.len() == 1 {
        segments[0]
    } else {
        joined(segments.drop_last(), sep) + seq![sep] + segments.last()
    }
}

/// The segments of a text hold no separator, and put together again they
/// give the text.
pub proof fn lemma_split_joins_back(s: Seq<char>, sep: char)
    ensures
        joined(split_on(s, sep), sep) == s,
        forall|i: int|
            0 <= i < split_on(s, sep).len() ==> !(#[trigger] split_on(s, sep)[i]).contains(sep),
    decreases s.len(),
{
    let out = split_on(s, sep);
    if s.len() == 0 {
        assert(joined(out, sep) =~= s);
    } else {
        let head = split_on(s.drop_last(), sep);
        lemma_split_joins_back(s.drop_last(), sep);
        lemma_split_nonempty(s.drop_last(), sep);
        let c = s.last();
        assert(s =~= s.drop_last().push(c));
        if c == sep {
            assert(out.drop_last() =~= head);
            assert(joined(out, sep) =~= joined(head, sep) + seq![sep] + Seq::<char>::empty());
            assert(joined(out, sep) =~= s);
            assert forall|i: int| 0 <= i < out.len() implies !(#[trigger] out[i]).contains(
                sep,
            ) by {
                if i < head.len() {
                    assert(out[i] == head[i]);
                }
            }
        } else {
            let last = head.last().push(c);
            assert(out.last() == last);
            assert(out.drop_last() =~= head.drop_last());
            if head.len() == 1 {
                assert(joined(head, sep) == head[0]);
                assert(joined(out, sep) =~= s);
            } else {
                assert(joined(out, sep) =~= joined(head.drop_last(), sep) + seq![sep] + last);
                assert(joined(head, sep) =~= joined(head.drop_last(), sep) + seq![sep]
                    + head.last());
                assert(joined(out, sep) =~= joined(head, sep).push(c));
            }
            assert forall|i: int| 0 <= i < out.len() implies !(#[trigger] out[i]).contains(
                sep,
            ) by {
                if i < head.len() - 1 {
                    assert(out[i] == head[i]);
                } else {
                    assert(!head[head.len() - 1].contains(sep));
                    if last.contains(sep) {
                        let k = choose|k: int| 0 <= k < last.len() && last[k] == sep;
                        assert(head.last()[k] == sep);
                        assert(head.last().contains(sep));
                    }
                }
            }
        }
    }
}

/// Splits `s` on every occurrence of `sep`.
pub fn split(s: &Vec<char>, sep: char) -> (out: Vec<Vec<char>>)
    ensures
        pieces(out@) == split_on(s@, sep),
{
    let mut done: Vec<Vec<char>> = Vec::new();
    let mut current: Vec<char> = Vec::new();
    let mut i: usize = 0;
    assert(s@.take(0) =~= Seq::<char>::empty());
    assert(pieces(done@).push(current@) =~= seq![Seq::<char>::empty()]);
    while i < s.len()
        invariant
            i <= s.len(),
            pieces(done@).push(current@) == split_on(s@.take(i as int), sep),
        decreases s.len() - i,
    {
        let c = s[i];
        let ghost before = s@.take(i as int);
        let ghost after = s@.take(i as int + 1);
        assert(after.drop_last() =~= before);
        assert(after.last() == c);
        let ghost head = split_on(before, sep);
        assert(head.drop_last() =~= pieces(done@));
        assert(head.last() == current@);
        if c == sep {
            done.push(current);
            current = Vec::new();
            assert(pieces(done@) =~= head);
            assert(pieces(done@).push(current@) =~= head.push(Seq::<char>::empty()));
        } else {
            current.push(c);
            assert(pieces(done@).push(current@) =~= head.drop_last().push(head.last().push(c)));
        }
        i = i + 1;
    }
    assert(s@.take(s.len() as int) =~= s@);
    let ghost all = pieces(done@).push(current@);
    done.push(current);
    assert(pieces(done@) =~= all);
    done
}

/// Lexical order on texts: character by character, by code point, a proper
/// prefix coming first.
pub open spec fn text_le(a: Seq<char>, b: Seq<char>) -> bool
    decreases a.len(),
{
    if a.len() == 0 {
        true
    } else if b.len() == 0 {
        false
    } else if a[0] != b[0] {
        (a[0] as u32) < (b[0] as u32)
    } else {
        text_le(a.drop_first(), b.drop_first())
    }
}

/// Any two texts are ordered one way or the other.
pub proof fn lemma_text_le_total(a: Seq<char>, b: Seq<char>)
    ensures
        text_le(a, b) || text_le(b, a),
    decreases a.len(),
{
    if a.len() > 0 && b.len() > 0 {
        if a[0] == b[0] {
            lemma_text_le_total(a.drop_first(), b.drop_first());
        } else {
            vstd::utf8::char_u32_cast(a[0], a[0] as u32);
            vstd::utf8::char_u32_cast(b[0], b[0] as u32);
        }
    }
}

/// Lexical order is transitive.
pub proof fn lemma_text_le_transitive(a: Seq<char>, b: Seq<char>, c: Seq<char>)
    requires
        text_le(a, b),
        text_le(b, c),
    ensures
        text_le(a, c),
    decreases a.len(),
{
    if a.len() > 0 && b.len() > 0 && c.len() > 0 {
        if a[0] == b[0] && b[0] == c[0] {
            lemma_text_le_transitive(a.drop_first(), b.drop_first(), c.drop_first());
        }
    }
}

/// Two texts that precede each other are the same text.
pub proof fn lemma_text_le_antisymmetric(a: Seq<char>, b: Seq<char>)
    requires
        text_le(a, b),
        text_le(b, a),
    ensures
        a == b,
    decreases a.len(),
{
    if a.len() > 0 && b.len() > 0 {
        lemma_text_le_antisymmetric(a.drop_first(), b.drop_first());
        assert(a =~= seq![a[0]] + a.drop_first());
        assert(b =~= seq![b[0]] + b.drop_first());
    } else {
        assert(a =~= b);
    }
}

/// Whether `a` comes before or together with `b` in lexical order.
pub fn text_precedes(a: &Vec<char>, b: &Vec<char>) -> (r: bool)
    ensures
        r == text_le(a@, b@),
{
    let mut i: usize = 0;
    assert(a@.skip(0) =~= a@);
    assert(b@.skip(0) =~= b@);
    while i < a.len() && i < b.len()
        invariant
            i <= a.len(),
            i <= b.len(),
            text_le(a@, b@) == text_le(a@.skip(i as int), b@.skip(i as int)),
        decreases a.len() - i,
    {
        let ghost ra = a@.skip(i as int);
        let ghost rb = b@.skip(i as int);
        assert(ra[0] == a@[i as int]);
        assert(rb[0] == b@[i as int]);
        if a[i] != b[i] {
            return (a[i] as u32) < (b[i] as u32);
        }
        assert(ra.drop_first() =~= a@.skip(i as int + 1));
        assert(rb.drop_first() =~= b@.skip(i as int + 1));
        i = i + 1;
    }
    i == a.len()
}

/// The texts of `s` without repetitions, each at its first occurrence.
pub open spec fn distinct(s: Seq<Seq<char>>) -> Seq<Seq<char>>
    decreases s.len(),
{
    if s.len() == 0 {
        Seq::empty()
    } else if distinct(s.drop_last()).contains(s.last()) {
        distinct(s.drop_last())
    } else {
        distinct(s.drop_last()).push(s.last())
    }
}

/// Whether `value` is among `list`.
pub fn holds_text(list: &Vec<String>, value: &String) -> (r: bool)
    ensures
        r == texts(list@).contains(value@),
{
    let mut i: usize = 0;
    while i < list.len()
        invariant
            i <= list.len(),
            forall|j: int| 0 <= j < i ==> texts(list@)[j] != value@,
        decreases list.len() - i,
    {
        if list[i] == *value {
            assert(texts(list@)[i as int] == value@);
            return true;
        }
        i = i + 1;
    }
    false
}

/// The texts of `values` without repetitions, each at its first occurrence.
pub fn distinct_texts(values: &Vec<String>) -> (out: Vec<String>)
    ensures
        texts(out@) == distinct(texts(values@)),
{
    let mut out: Vec<String> = Vec::new();
    let ghost all = texts(values@);
    let mut i: usize = 0;
    assert(all.take(0) =~= Seq::<Seq<char>>::empty());
    assert(texts(out@) =~= Seq::<Seq<char>>::empty());
    while i < values.len()
        invariant
            i <= values.len(),
            all == texts(values@),
            texts(out@) == distinct(all.take(i as int)),
        decreases values.len() - i,
    {
        assert(all.take(i as int + 1).drop_last() =~= all.take(i as int));
        assert(all.take(i as int + 1).last() == values@[i as int]@);
        if !holds_text(&out, &values[i]) {
            let ghost previous = texts(out@);
            out.push(values[i].clone());
            assert(texts(out@) =~= previous.push(values@[i as int]@));
        }
        i = i + 1;
    }
    assert(all.take(values.len() as int) =~= all);
    out
}

/// No text occurs twice in the distinct texts of a sequence, and a text is
/// among them exactly when it is in the sequence.
pub proof fn lemma_distinct(s: Seq<Seq<char>>)
    ensures
        distinct(s).no_duplicates(),
        forall|t: Seq<char>| distinct(s).contains(t) <==> s.contains(t),
        distinct(s).len() <= s.len(),
    decreases s.len(),
{
    if s.len() > 0 {
        let head = s.drop_last();
        lemma_distinct(head);
        let d = distinct(head);
        assert forall|t: Seq<char>| distinct(s).contains(t) <==> s.contains(t) by {
            if s.contains(t) {
                let i = choose|i: int| 0 <= i < s.len() && s[i] == t;
                if i < head.len() {
                    assert(head[i] == t);
                    assert(head.contains(t));
                    assert(d.contains(t));
                    let j = choose|j: int| 0 <= j < d.len() && d[j] == t;
                    assert(distinct(s)[j] == t);
                } else {
                    if !d.contains(t) {
                        assert(distinct(s)[d.len() as int] == t);
                    }
                }
            }
            if distinct(s).contains(t) {
                let j = choose|j: int| 0 <= j < distinct(s).len() && distinct(s)[j] == t;
                if j < d.len() {
                    assert(d[j] == t);
                    assert(d.contains(t));
                    assert(head.contains(t));
                    let i = choose|i: int| 0 <= i < head.len() && head[i] == t;
                    assert(s[i] == t);
                } else {
                    assert(s[s.len() - 1] == t);
                }
            }
        }
    }
}

/// Whether `s` is the text `literal`.
pub fn text_is(s: &String, literal: &str) -> (r: bool)
    ensures
        r == (s@ == literal@),
{
    let other = literal.to_owned();
    *s == other
}

/// The character of a decimal digit; `'9'` for what is no digit.
pub open spec fn digit(d: int) -> char {
    if d == 0 {
        '0'
    } else if d == 1 {
        '1'
    } else if d == 2 {
        '2'
    } else if d == 3 {
        '3'
    } else if d == 4 {
        '4'
    } else if d == 5 {
        '5'
    } else if d == 6 {
        '6'
    } else if d == 7 {
        '7'
    } else if d == 8 {
        '8'
    } else {
        '9'
    }
}

/// The decimal digits of `n`, without leading zeros.
pub open spec fn digits(n: nat) -> Seq<char>
    decreases n,
{
    if n < 10 {
        seq![digit(n as int)]
    } else {
        digits(n / 10).push(digit((n % 10) as int))
    }
}

/// The decimal text of `n`, with a minus sign where it is negative.
pub open spec fn decimal(n: int) -> Seq<char> {
    if n < 0 {
        seq!['-'] + digits((-n) as nat)
    } else {
        digits(n as nat)
    }
}

fn digit_char(d: u128) -> (c: char)
    requires
        d < 10,
    ensures
        c == digit(d as int),
{
    if d == 0 {
        '0'
    } else if d == 1 {
        '1'
    } else if d == 2 {
        '2'
    } else if d == 3 {
        '3'
    } else if d == 4 {
        '4'
    } else if d == 5 {
        '5'
    } else if d == 6 {
        '6'
    } else if d == 7 {
        '7'
    } else if d == 8 {
        '8'
    } else {
        '9'
    }
}

/// Appends the decimal digits of `n` to `out`.
pub fn push_digits(out: &mut Vec<char>, n: u128)
    ensures
        final(out)@ == old(out)@ + digits(n as nat),
    decreases n,
{
    if n >= 10 {
        push_digits(out, n / 10);
    }
    out.push(digit_char(n % 10));
    assert(out@ =~= old(out)@ + digits(n as nat));
}

/// Appends the decimal text of `n` to `out`.
pub fn push_decimal(out: &mut Vec<char>, n: i128)
    ensures
        final(out)@ == old(out)@ + decimal(n as int),
{
    if n < 0 {
        out.push('-');
        let magnitude: u128 = if n == i128::MIN {
            170141183460469231731687303715884105728u128
        } else {
            (-n) as u128
        };
        push_digits(out, magnitude);
        assert(out@ =~= old(out)@ + (seq!['-'] + digits((-n) as nat)));
    } else {
        push_digits(out, n as u128);
    }
}

/// What `str::to_lowercase` makes of a text.
pub uninterp spec fn lowercase_of(s: Seq<char>) -> Seq<char>;

/// The text in lower case.
///
/// Assumed of `str::to_lowercase`: its result depends on the text alone.
#[verifier::external_body]
pub(crate) fn lowercase(s: &str) -> (r: String)
    ensures
        r@ == lowercase_of(s@),
{
    s.to_lowercase()
}

/// Lexical order as a relation.
pub open spec fn text_order() -> spec_fn(Seq<char>, Seq<char>) -> bool {
    |a: Seq<char>, b: Seq<char>| text_le(a, b)
}

/// Appends the characters of `s` to `out`.
pub fn push_text(out: &mut Vec<char>, s: &str)
    ensures
        final(out)@ == old(out)@ + s@,
{
    assert(out@ =~= old(out)@ + s@.take(0));
    for c in it: s.chars()
        invariant
            it.seq() == s@,
            out@ == old(out)@ + s@.take(it.index() as int),
    {
        out.push(c);
        assert(out@ =~= old(out)@ + s@.take(it.index() as int + 1));
    }
    assert(s@.take(s@.len() as int) =~= s@);
}

/// A text with its characters at hand, for sorting.
struct TextKey {
    text: String,
    chars: Vec<char>,
}

impl Ranked for TextKey {
    closed spec fn comparable(&self) -> bool {
        self.chars@ == self.text@
    }

    closed spec fn precedes(&self, other: &Self) -> bool {
        text_le(self.text@, other.text@)
    }

    fn comes_first(&self, other: &Self) -> (r: bool) {
        text_precedes(&self.chars, &other.chars)
    }
}

spec fn key_texts(keys: Seq<TextKey>) -> Seq<Seq<char>> {
    keys.map_values(|k: TextKey| k.text@)
}

/// Sorts texts in lexical order.
pub fn sort_texts(values: &Vec<String>) -> (out: Vec<String>)
    ensures
        texts(out@) == sorted(texts(values@), text_order()),
{
    let mut keys: Vec<TextKey> = Vec::new();
    let mut i: usize = 0;
    while i < values.len()
        invariant
            i <= values.len(),
            key_texts(keys@) == texts(values@).take(i as int),
            forall|j: int| 0 <= j < keys.len() ==> (#[trigger] keys[j]).comparable(),
        decreases values.len() - i,
    {
        let ghost previous = key_texts(keys@);
        let key = TextKey { text: values[i].clone(), chars: chars_of(values[i].as_str()) };
        keys.push(key);
        assert(key_texts(keys@) =~= previous.push(values@[i as int]@));
        assert(texts(values@).take(i as int + 1) =~= texts(values@).take(i as int).push(
            values@[i as int]@,
        ));
        i = i + 1;
    }
    assert(texts(values@).take(values.len() as int) =~= texts(values@));
    let ghost unsorted = keys@;
    let in_order = stable_sort(keys);
    proof {
        assert forall|a: TextKey, b: TextKey| #[trigger]
            rank_order::<TextKey>()(a, b) == text_order()(a.text@, b.text@) by {}
        lemma_sorted_maps(
            unsorted,
            |k: TextKey| k.text@,
            rank_order::<TextKey>(),
            text_order(),
        );
    }
    let mut out: Vec<String> = Vec::new();
    let mut k: usize = 0;
    while k < in_order.len()
        invariant
            k <= in_order.len(),
            texts(out@) == key_texts(in_order@).take(k as int),
        decreases in_order.len() - k,
    {
        let ghost previous = texts(out@);
        out.push(in_order[k].text.clone());
        assert(texts(out@) =~= previous.push(in_order@[k as int].text@));
        assert(key_texts(in_order@).take(k as int + 1) =~= key_texts(in_order@).take(
            k as int,
        ).push(in_order@[k as int].text@));
        k = k + 1;
    }
    assert(key_texts(in_order@).take(in_order.len() as int) =~= key_texts(in_order@));
    out
}

} // verus!
