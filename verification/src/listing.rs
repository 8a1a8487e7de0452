//! The listing of trap signals by number.

use itertools::Itertools;
use std::cmp::Ordering;
use vstd::prelude::*;

use crate::signal;
use crate::text;
use crate::traps::TrapSignal;

verus! {

broadcast use {signal::lemma_signal_of_view, signal::lemma_view_of_signal};

/// The numbers of those signals that have one, in the order of the signals.
pub open spec fn numbers_of(signals: Seq<TrapSignal>) -> Seq<int> {
    signals.filter(|s: TrapSignal| s.number() is Some).map_values(
        |s: TrapSignal| s.number()->0 as int,
    )
}

/// The line of the listing for a number: the number, a closing parenthesis, a space and the name.
pub open spec fn listing_line(n: int) -> Seq<char> {
    text::decimal(n) + ") "@ + TrapSignal::numbered(n)->0.name()
}

/// The listing of signals: a line for each that has a number, in the order of the numbers.
pub open spec fn listing(signals: Seq<TrapSignal>) -> Seq<char> {
    text::joined(numbers_of(signals).sort().map_values(|n: int| listing_line(n)), "\n"@)
}

/// Orders two numbered signals by their numbers.
fn by_number(a: &(TrapSignal, i32), b: &(TrapSignal, i32)) -> (order: Ordering)
    ensures
        order == (if a.1 < b.1 {
            Ordering::Less
        } else if a.1 == b.1 {
            Ordering::Equal
        } else {
            Ordering::Greater
        }),
{
    a.1.cmp(&b.1)
}

/// Trusted: `Itertools::sorted_by` gives the same items in ascending order of the comparison,
/// here `by_number`. That the sort is stable is not stated: signals with the same number are the
/// same signal.
#[verifier::external_body]
fn sorted_by_number(items: Vec<(TrapSignal, i32)>) -> (sorted: Vec<(TrapSignal, i32)>)
    ensures
        sorted@.to_multiset() == items@.to_multiset(),
        forall|i: int, j: int| 0 <= i < j < sorted@.len() ==> sorted@[i].1 <= sorted@[j].1,
{
    items.into_iter().sorted_by(|a, b| by_number(a, b)).collect()
}

/// Trusted: `Itertools::format_with` writes one item after the other, with the separator
/// between neighbours.
#[verifier::external_body]
fn join(lines: Vec<String>, sep: &str) -> (text: String)
    ensures
        text@ == text::joined(text::texts_of(lines@), sep@),
{
    lines.iter().format_with(sep, |line, f| f(line)).to_string()
}

/// Sequences with the same items have the same mapped items.
proof fn lemma_mapped_multiset<A, B>(a: Seq<A>, b: Seq<A>, f: spec_fn(A) -> B)
    requires
        a.to_multiset() == b.to_multiset(),
    ensures
        a.map_values(f).to_multiset() == b.map_values(f).to_multiset(),
    decreases a.len(),
{
    broadcast use vstd::seq_lib::group_to_multiset_ensures;

    if a.len() == 0 {
        vstd::seq_lib::to_multiset_len(a);
        vstd::seq_lib::to_multiset_len(b);
        assert(a.map_values(f) == b.map_values(f));
    } else {
        let rest = a.drop_last();
        assert(rest == a.remove(a.len() - 1));
        assert(b.to_multiset().count(a.last()) > 0) by {
            assert(a.contains(a.last()));
        }
        let i = choose|i: int| 0 <= i < b.len() && b[i] == a.last();
        lemma_mapped_multiset(rest, b.remove(i), f);
        assert(a.map_values(f) == rest.map_values(f).push(f(a.last())));
        assert(b.map_values(f).remove(i) == b.remove(i).map_values(f));
        assert(b.map_values(f)[i] == f(a.last()));
        assert(b.map_values(f).remove(i).to_multiset() == b.map_values(f).to_multiset().remove(
            f(a.last()),
        ));
        assert(b.map_values(f).contains(f(a.last())));
        assert(a.map_values(f).to_multiset() =~= b.map_values(f).to_multiset());
    }
}

/// What `sorted_by_number` gives has the sorted numbers.
proof fn lemma_sorted_numbers(items: Seq<(TrapSignal, i32)>, sorted: Seq<(TrapSignal, i32)>)
    requires
        sorted.to_multiset() == items.to_multiset(),
        forall|i: int, j: int| 0 <= i < j < sorted.len() ==> sorted[i].1 <= sorted[j].1,
    ensures
        sorted.map_values(|item: (TrapSignal, i32)| item.1 as int) == items.map_values(
            |item: (TrapSignal, i32)| item.1 as int,
        ).sort(),
{
    let f = |item: (TrapSignal, i32)| item.1 as int;
    let leq = |x: int, y: int| x <= y;
    lemma_mapped_multiset(sorted, items, f);
    items.map_values(f).lemma_sort_ensures();
    vstd::seq_lib::lemma_sorted_unique(sorted.map_values(f), items.map_values(f).sort(), leq);
}

proof fn lemma_numbers_of_last(signals: Seq<TrapSignal>)
    requires
        signals.len() > 0,
    ensures
        numbers_of(signals) == (match signals.last().number() {
            Some(n) => numbers_of(signals.drop_last()).push(n as int),
            None => numbers_of(signals.drop_last()),
        }),
{
    reveal(Seq::filter);
    assert(numbers_of(signals) =~= (match signals.last().number() {
        Some(n) => numbers_of(signals.drop_last()).push(n as int),
        None => numbers_of(signals.drop_last()),
    }));
}

/// Returns the signals that have a number, each with its number, in the order of the signals.
fn numbered_signals(signals: &Vec<TrapSignal>) -> (items: Vec<(TrapSignal, i32)>)
    ensures
        items@.map_values(|item: (TrapSignal, i32)| item.1 as int) == numbers_of(signals@),
        forall|k: int|
            0 <= k < items.len() ==> (#[trigger] items@[k]).0.number() == Some(items@[k].1),
{
    let mut items: Vec<(TrapSignal, i32)> = Vec::new();
    proof {
        reveal(Seq::filter);
    }
    for i in 0..signals.len()
        invariant
            items@.map_values(|item: (TrapSignal, i32)| item.1 as int) == numbers_of(
                signals@.take(i as int),
            ),
            forall|k: int|
                0 <= k < items.len() ==> (#[trigger] items@[k]).0.number() == Some(
                    items@[k].1,
                ),
    {
        let signal = signals[i];
        proof {
            lemma_numbers_of_last(signals@.take(i + 1));
            assert(signals@.take(i + 1).drop_last() == signals@.take(i as int));
        }
        match i32::try_from(signal) {
            Ok(number) => items.push((signal, number)),
            Err(_) => {},
        }
    }
    assert(signals@.take(signals.len() as int) == signals@);
    items
}

/// Returns the line of the listing for a signal with its number.
fn line_for(signal: TrapSignal, number: i32) -> (line: String)
    requires
        signal.number() == Some(number),
    ensures
        line@ == listing_line(number as int),
        line@ == text::decimal(number as int) + ") "@ + signal.name(),
{
    let name = signal.as_str();
    text::to_decimal(number as i64).concat(") ").concat(name)
}

/// Returns the listing of signals: a line for each that has a number, in the order of the
/// numbers. Signals without a number are left out.
pub fn format_signals(signals: &Vec<TrapSignal>) -> (text: String)
    ensures
        text@ == listing(signals@),
{
    let items = numbered_signals(signals);
    let ghost unsorted = items@;
    let sorted = sorted_by_number(items);
    let ghost numbers = numbers_of(signals@).sort();
    proof {
        lemma_sorted_numbers(unsorted, sorted@);
        assert forall|k: int| 0 <= k < sorted.len() implies (#[trigger] sorted@[k]).0.number()
            == Some(sorted@[k].1) by {
            broadcast use vstd::seq_lib::group_to_multiset_ensures;

            assert(sorted@.contains(sorted@[k]));
            assert(unsorted.to_multiset().count(sorted@[k]) > 0);
        }
    }
    let mut lines: Vec<String> = Vec::new();
    for i in 0..sorted.len()
        invariant
            sorted@.map_values(|item: (TrapSignal, i32)| item.1 as int) == numbers,
            forall|k: int|
                0 <= k < sorted.len() ==> (#[trigger] sorted@[k]).0.number() == Some(
                    sorted@[k].1,
                ),
            text::texts_of(lines@) == numbers.take(i as int).map_values(|n: int| listing_line(n)),
    {
        let (signal, number) = sorted[i];
        assert(numbers[i as int] == number);
        let line = line_for(signal, number);
        proof {
            assert(text::texts_of(lines@.push(line)) == text::texts_of(lines@).push(line@));
            assert(numbers.take(i + 1) == numbers.take(i as int).push(number as int));
        }
        lines.push(line);
    }
    assert(numbers.take(sorted.len() as int) == numbers);
    join(lines, "\n")
}

/// Law: a signal without a number is not listed.
pub proof fn law_signal_without_number_is_not_listed(signals: Seq<TrapSignal>, signal: TrapSignal)
    requires
        signal.number() is None,
    ensures
        listing(signals.push(signal)) == listing(signals),
{
    lemma_numbers_of_last(signals.push(signal));
    assert(signals.push(signal).drop_last() == signals);
}

/// The numbers of one list of signals after another.
proof fn lemma_numbers_of_concat(a: Seq<TrapSignal>, b: Seq<TrapSignal>)
    ensures
        numbers_of(a + b) == numbers_of(a) + numbers_of(b),
    decreases b.len(),
{
    if b.len() == 0 {
        reveal(Seq::filter);
        assert(a + b == a);
        assert(numbers_of(b) == Seq::<int>::empty());
    } else {
        lemma_numbers_of_concat(a, b.drop_last());
        lemma_numbers_of_last(a + b);
        lemma_numbers_of_last(b);
        assert((a + b).drop_last() == a + b.drop_last());
    }
}

/// Taking one signal out of a list takes its number out of the numbers.
proof fn lemma_numbers_of_remove(signals: Seq<TrapSignal>, i: int)
    requires
        0 <= i < signals.len(),
    ensures
        numbers_of(signals).to_multiset() == (match signals[i].number() {
            Some(n) => numbers_of(signals.remove(i)).to_multiset().insert(n as int),
            None => numbers_of(signals.remove(i)).to_multiset(),
        }),
{
    let before = signals.take(i);
    let one = seq![signals[i]];
    let after = signals.skip(i + 1);
    assert(signals == before + one + after);
    assert(signals.remove(i) == before + after);
    lemma_numbers_of_concat(before + one, after);
    lemma_numbers_of_concat(before, one);
    lemma_numbers_of_concat(before, after);
    lemma_numbers_of_last(one);
    reveal(Seq::filter);
    assert(one.drop_last() == Seq::<TrapSignal>::empty());
    assert(numbers_of(one.drop_last()) == Seq::<int>::empty());
    match signals[i].number() {
        Some(n) => {
            let k = numbers_of(before).len() as int;
            assert(numbers_of(signals) == (numbers_of(before) + numbers_of(after)).insert(
                k,
                n as int,
            ));
            vstd::seq_lib::to_multiset_insert(numbers_of(before) + numbers_of(after), k, n as int);
        },
        None => {
            assert(numbers_of(signals) == numbers_of(before) + numbers_of(after));
        },
    }
}

/// Law: the order in which signals come makes no difference to their listing.
pub proof fn law_listing_does_not_depend_on_order(a: Seq<TrapSignal>, b: Seq<TrapSignal>)
    requires
        a.to_multiset() == b.to_multiset(),
    ensures
        listing(a) == listing(b),
{
    lemma_numbers_of_multiset(a, b);
    let leq = |x: int, y: int| x <= y;
    numbers_of(a).lemma_sort_ensures();
    numbers_of(b).lemma_sort_ensures();
    vstd::seq_lib::lemma_sorted_unique(numbers_of(a).sort(), numbers_of(b).sort(), leq);
}

/// The same signals have the same numbers.
proof fn lemma_numbers_of_multiset(a: Seq<TrapSignal>, b: Seq<TrapSignal>)
    requires
        a.to_multiset() == b.to_multiset(),
    ensures
        numbers_of(a).to_multiset() == numbers_of(b).to_multiset(),
    decreases a.len(),
{
    broadcast use vstd::seq_lib::group_to_multiset_ensures;

    vstd::seq_lib::to_multiset_len(a);
    vstd::seq_lib::to_multiset_len(b);
    if a.len() == 0 {
        assert(a == b);
    } else {
        let last = a.len() - 1;
        assert(a.contains(a[last]));
        assert(b.to_multiset().count(a[last]) > 0);
        let i = choose|i: int| 0 <= i < b.len() && b[i] == a[last];
        lemma_numbers_of_multiset(a.remove(last), b.remove(i));
        lemma_numbers_of_remove(a, last);
        lemma_numbers_of_remove(b, i);
    }
}

/// Law: the numbers are listed in ascending order, each as often as a signal has it.
pub proof fn law_listed_numbers_ascend(signals: Seq<TrapSignal>)
    ensures
        forall|i: int, j: int|
            0 <= i < j < numbers_of(signals).sort().len() ==> numbers_of(signals).sort()[i]
                <= numbers_of(signals).sort()[j],
        numbers_of(signals).sort().to_multiset() == numbers_of(signals).to_multiset(),
{
    let sorted = numbers_of(signals).sort();
    let leq = |x: int, y: int| x <= y;
    numbers_of(signals).lemma_sort_ensures();
    assert forall|i: int, j: int| 0 <= i < j < sorted.len() implies sorted[i] <= sorted[j] by {
        assert(leq(sorted[i], sorted[j]));
    }
}

/// There are numbers exactly where a signal has one, and each is that of a signal.
proof fn lemma_numbers_are_those_of_signals(signals: Seq<TrapSignal>, bound: int)
    ensures
        (numbers_of(signals).len() == 0) == (forall|i: int|
            0 <= i < signals.len() ==> (#[trigger] signals[i]).number() is None),
        (forall|i: int|
            0 <= i < signals.len() ==> ((#[trigger] signals[i]).number() matches Some(m) ==> m
                <= bound)) ==> (forall|k: int|
            0 <= k < numbers_of(signals).len() ==> #[trigger] numbers_of(signals)[k] <= bound),
    decreases signals.len(),
{
    if signals.len() == 0 {
        reveal(Seq::filter);
    } else {
        let before = signals.drop_last();
        lemma_numbers_of_last(signals);
        lemma_numbers_are_those_of_signals(before, bound);
        assert(signals[signals.len() - 1] == signals.last());
        if numbers_of(signals).len() == 0 {
            assert forall|i: int| 0 <= i < signals.len() implies (
            #[trigger] signals[i]).number() is None by {
                if i < before.len() {
                    assert(before[i] == signals[i]);
                }
            }
        }
        if forall|i: int|
            0 <= i < signals.len() ==> ((#[trigger] signals[i]).number() matches Some(m) ==> m
                <= bound) {
            assert forall|i: int| 0 <= i < before.len() implies (
            (#[trigger] before[i]).number() matches Some(m) ==> m <= bound) by {
                assert(before[i] == signals[i]);
            }
        }
        if forall|i: int| 0 <= i < signals.len() ==> (#[trigger] signals[i]).number() is None {
            assert forall|i: int| 0 <= i < before.len() implies (
            #[trigger] before[i]).number() is None by {
                assert(before[i] == signals[i]);
            }
        }
    }
}

/// Law: the listing of one signal with a number is the number in decimal, a closing parenthesis, a
/// space and the signal's name. The listing of no signals is empty.
pub proof fn law_listing_of_one(signal: TrapSignal)
    requires
        signal.valid(),
    ensures
        signal.number() matches Some(n) ==> listing(seq![signal]) == text::decimal(n as int) + ") "@
            + signal.name(),
        listing(Seq::empty()) == Seq::<char>::empty(),
{
    reveal(Seq::filter);
    assert(numbers_of(Seq::empty()) =~= Seq::<int>::empty());
    numbers_of(Seq::empty()).lemma_sort_ensures();
    vstd::seq_lib::to_multiset_len(numbers_of(Seq::empty()));
    vstd::seq_lib::to_multiset_len(numbers_of(Seq::empty()).sort());
    assert(numbers_of(Seq::empty()).sort() =~= Seq::<int>::empty());
    assert(numbers_of(Seq::empty()).sort().map_values(|n: int| listing_line(n)) =~= Seq::<
        Seq<char>,
    >::empty());
    if let Some(n) = signal.number() {
        let one = seq![n as int];
        lemma_numbers_of_last(seq![signal]);
        assert(seq![signal].drop_last() =~= Seq::<TrapSignal>::empty());
        assert(numbers_of(seq![signal]) =~= one);
        one.lemma_sort_ensures();
        vstd::seq_lib::lemma_sorted_unique(one, one.sort(), |x: int, y: int| x <= y);
        assert(one.map_values(|n: int| listing_line(n)) =~= seq![listing_line(n as int)]);
        text::law_joined_of_none_and_one(listing_line(n as int), "\n"@);
        crate::traps::law_found_by_its_number(signal);
    }
}

/// Law: a signal whose number is not below that of any other is listed last, on a line of its own
/// behind the listing of the others.
pub proof fn law_greatest_number_is_listed_last(rest: Seq<TrapSignal>, signal: TrapSignal, n: i32)
    requires
        signal.valid(),
        signal.number() == Some(n),
        forall|i: int|
            0 <= i < rest.len() ==> ((#[trigger] rest[i]).number() matches Some(m) ==> m <= n),
    ensures
        (forall|i: int| 0 <= i < rest.len() ==> (#[trigger] rest[i]).number() is None) ==> listing(
            rest.push(signal),
        ) == listing(seq![signal]),
        !(forall|i: int| 0 <= i < rest.len() ==> (#[trigger] rest[i]).number() is None) ==> listing(
            rest.push(signal),
        ) == listing(rest) + "\n"@ + listing(seq![signal]),
{
    broadcast use vstd::seq_lib::group_to_multiset_ensures;

    let all = rest.push(signal);
    let before = numbers_of(rest).sort();
    let sorted = before.push(n as int);
    let leq = |x: int, y: int| x <= y;
    let line = |n: int| listing_line(n);
    assert(all.drop_last() == rest);
    lemma_numbers_of_last(all);
    lemma_numbers_are_those_of_signals(rest, n as int);
    numbers_of(rest).lemma_sort_ensures();
    numbers_of(all).lemma_sort_ensures();
    vstd::seq_lib::to_multiset_len(numbers_of(rest));
    vstd::seq_lib::to_multiset_len(before);
    assert forall|k: int| 0 <= k < before.len() implies #[trigger] before[k] <= n by {
        assert(before.contains(before[k]));
        assert(numbers_of(rest).to_multiset().count(before[k]) > 0);
        let i = choose|i: int| 0 <= i < numbers_of(rest).len() && numbers_of(rest)[i] == before[k];
        assert(numbers_of(rest)[i] <= n);
    }
    assert(vstd::relations::sorted_by(sorted, leq)) by {
        assert forall|i: int, j: int| 0 <= i < j < sorted.len() implies #[trigger] leq(
            sorted[i],
            sorted[j],
        ) by {
            if j < before.len() {
                assert(leq(before[i], before[j]));
            }
        }
    }
    vstd::seq_lib::lemma_sorted_unique(sorted, numbers_of(all).sort(), leq);
    assert(sorted.map_values(line) =~= before.map_values(line) + seq![listing_line(n as int)]);
    law_listing_of_one(signal);
    crate::traps::law_found_by_its_number(signal);
    text::law_joined_of_none_and_one(listing_line(n as int), "\n"@);
    if before.len() > 0 {
        text::law_joined_of_parts(before.map_values(line), seq![listing_line(n as int)], "\n"@);
    } else {
        assert(sorted.map_values(line) =~= seq![listing_line(n as int)]);
    }
}

/// Law: the listing of signals with numbers, in ascending order, is the listings of the single
/// signals, one after the other, with a line break between neighbours.
pub proof fn law_listing_is_the_single_listings_in_order(signals: Seq<TrapSignal>)
    requires
        forall|i: int|
            0 <= i < signals.len() ==> (#[trigger] signals[i]).valid()
                && signals[i].number() is Some,
        forall|i: int, j: int|
            0 <= i < j < signals.len() ==> (#[trigger] signals[i]).number()->0 <= (
            #[trigger] signals[j]).number()->0,
    ensures
        listing(signals) == text::joined(
            signals.map_values(|signal: TrapSignal| listing(seq![signal])),
            "\n"@,
        ),
    decreases signals.len(),
{
    let one = |signal: TrapSignal| listing(seq![signal]);
    if signals.len() == 0 {
        law_listing_of_one(TrapSignal::Exit);
        assert(signals =~= Seq::empty());
        assert(signals.map_values(one) =~= Seq::<Seq<char>>::empty());
    } else {
        let rest = signals.drop_last();
        let last = signals.last();
        assert(signals[signals.len() - 1] == last);
        assert forall|i: int| 0 <= i < rest.len() implies #[trigger] rest[i] == signals[i] by {}
        law_listing_is_the_single_listings_in_order(rest);
        assert(rest.push(last) == signals);
        law_greatest_number_is_listed_last(rest, last, last.number()->0);
        text::law_joined_of_none_and_one(one(last), "\n"@);
        if rest.len() == 0 {
            assert(signals.map_values(one) =~= seq![one(last)]);
        } else {
            assert(signals.map_values(one) =~= rest.map_values(one) + seq![one(last)]);
            text::law_joined_of_parts(rest.map_values(one), seq![one(last)], "\n"@);
            assert(rest[0].number() is Some);
        }
    }
}

}
