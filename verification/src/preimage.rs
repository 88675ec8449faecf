//! The pre-image of a book's digest.
//!
//! Each of the two byte strings is written as a list of decimal numbers
//! between square brackets, the numbers separated by a comma and a space,
//! and the two lists follow each other directly: `[116, 105][97]`. The
//! brackets keep the end of the title apart from the start of the author.

use vstd::prelude::*;

verus! {

/// The ASCII character of a decimal digit.
pub open spec fn digit(d: int) -> u8
    recommends
        0 <= d < 10,
{
    (0x30 + d) as u8
}

/// A byte as a decimal number, without leading zeros.
pub open spec fn decimal(b: u8) -> Seq<u8> {
    if b < 10 {
        seq![digit(b as int)]
    } else if b < 100 {
        seq![digit(b as int / 10), digit(b as int % 10)]
    } else {
        seq![digit(b as int / 100), digit(b as int / 10 % 10), digit(b as int % 10)]
    }
}

/// The comma and the space between two numbers of a list.
pub open spec fn separator() -> Seq<u8> {
    seq![0x2c, 0x20]
}

/// The numbers of a list, without its brackets.
pub open spec fn items(s: Seq<u8>) -> Seq<u8>
    decreases s.len(),
{
    if s.len() == 0 {
        Seq::empty()
    } else if s.len() == 1 {
        decimal(s[0])
    } else {
        items(s.drop_last()) + separator() + decimal(s.last())
    }
}

/// A byte string as a bracketed list of decimal numbers.
pub open spec fn list(s: Seq<u8>) -> Seq<u8> {
    seq![0x5b] + items(s) + seq![0x5d]
}

/// The pre-image of the pair: the list of the title, then that of the author.
pub open spec fn pre_image(title: Seq<u8>, author: Seq<u8>) -> Seq<u8> {
    list(title) + list(author)
}

/// Appends a byte as a decimal number.
pub fn push_decimal(out: &mut Vec<u8>, b: u8)
    ensures
        final(out)@ == old(out)@ + decimal(b),
{
    if b >= 100 {
        out.push(0x30 + b / 100);
    }
    if b >= 10 {
        out.push(0x30 + b / 10 % 10);
    }
    out.push(0x30 + b % 10);
    assert(out@ =~= old(out)@ + decimal(b));
}

/// Appends a byte string as a bracketed list.
pub fn push_list(out: &mut Vec<u8>, s: &Vec<u8>)
    ensures
        final(out)@ == old(out)@ + list(s@),
{
    out.push(0x5b);
    let ghost opened = out@;
    let mut i: usize = 0;
    while i < s.len()
        invariant
            i <= s.len(),
            opened == old(out)@.push(0x5b),
            out@ == opened + items(s@.take(i as int)),
        decreases s.len() - i,
    {
        let ghost before = out@;
        if i > 0 {
            out.push(0x2c);
            out.push(0x20);
        }
        push_decimal(out, s[i]);
        proof {
            let head = s@.take(i as int);
            let next = s@.take(i + 1);
            assert(next.drop_last() =~= head);
            assert(next.last() == s@[i as int]);
            if i == 0 {
                assert(items(head) =~= Seq::<u8>::empty());
                assert(out@ =~= opened + items(next));
            } else {
                assert(out@ =~= before + separator() + decimal(s@[i as int]));
                assert(out@ =~= opened + items(next));
            }
        }
        i += 1;
    }
    assert(s@.take(s@.len() as int) =~= s@);
    out.push(0x5d);
    assert(out@ =~= old(out)@ + list(s@));
}

/// Writes the pre-image of a title and an author.
pub fn encode(title: &Vec<u8>, author: &Vec<u8>) -> (data: Vec<u8>)
    ensures
        data@ == pre_image(title@, author@),
{
    let mut data: Vec<u8> = Vec::new();
    push_list(&mut data, title);
    push_list(&mut data, author);
    assert(data@ =~= pre_image(title@, author@));
    data
}

/// What a scan of a pre-image from the left has read so far.
struct Scan {
    /// The lists that are closed.
    lists: Seq<Seq<u8>>,
    /// The numbers of the list that is open, but for the last.
    numbers: Seq<u8>,
    /// The value of the digits read since the last comma or bracket.
    number: int,
    /// Whether a digit was read since the last comma or bracket.
    in_number: bool,
}

/// The scan after one more character.
spec fn scan_step(at: Scan, c: u8) -> Scan {
    if c == 0x5b {
        Scan { lists: at.lists, numbers: Seq::empty(), number: 0, in_number: false }
    } else if c == 0x5d {
        Scan {
            lists: at.lists.push(
                if at.in_number {
                    at.numbers.push(at.number as u8)
                } else {
                    at.numbers
                },
            ),
            numbers: Seq::empty(),
            number: 0,
            in_number: false,
        }
    } else if c == 0x2c {
        Scan {
            lists: at.lists,
            numbers: at.numbers.push(at.number as u8),
            number: 0,
            in_number: false,
        }
    } else if 0x30 <= c <= 0x39 {
        Scan {
            lists: at.lists,
            numbers: at.numbers,
            number: at.number * 10 + (c - 0x30),
            in_number: true,
        }
    } else {
        at
    }
}

/// The scan after a text, read character by character.
spec fn scan(from: Scan, text: Seq<u8>) -> Scan
    decreases text.len(),
{
    if text.len() == 0 {
        from
    } else {
        scan_step(scan(from, text.drop_last()), text.last())
    }
}

proof fn lemma_scan_push(from: Scan, text: Seq<u8>, c: u8)
    ensures
        scan(from, text.push(c)) == scan_step(scan(from, text), c),
{
    assert(text.push(c).drop_last() =~= text);
}

proof fn lemma_scan_concat(from: Scan, head: Seq<u8>, tail: Seq<u8>)
    ensures
        scan(from, head + tail) == scan(scan(from, head), tail),
    decreases tail.len(),
{
    if tail.len() == 0 {
        assert(head + tail =~= head);
    } else {
        assert((head + tail).drop_last() =~= head + tail.drop_last());
        lemma_scan_concat(from, head, tail.drop_last());
    }
}

proof fn lemma_scan_decimal(from: Scan, b: u8)
    requires
        from.number == 0,
    ensures
        scan(from, decimal(b)) == (Scan {
            lists: from.lists,
            numbers: from.numbers,
            number: b as int,
            in_number: true,
        }),
{
    let none = Seq::<u8>::empty();
    assert(scan(from, none) == from);
    if b < 10 {
        assert(decimal(b) =~= none.push(digit(b as int)));
        lemma_scan_push(from, none, digit(b as int));
    } else if b < 100 {
        let d1 = digit(b as int / 10);
        let d0 = digit(b as int % 10);
        assert(decimal(b) =~= none.push(d1).push(d0));
        lemma_scan_push(from, none, d1);
        lemma_scan_push(from, none.push(d1), d0);
    } else {
        let d2 = digit(b as int / 100);
        let d1 = digit(b as int / 10 % 10);
        let d0 = digit(b as int % 10);
        assert(decimal(b) =~= none.push(d2).push(d1).push(d0));
        lemma_scan_push(from, none, d2);
        lemma_scan_push(from, none.push(d2), d1);
        lemma_scan_push(from, none.push(d2).push(d1), d0);
    }
}

proof fn lemma_scan_items(from: Scan, s: Seq<u8>)
    requires
        from.number == 0,
        s.len() > 0,
    ensures
        scan(from, items(s)) == (Scan {
            lists: from.lists,
            numbers: from.numbers + s.drop_last(),
            number: s.last() as int,
            in_number: true,
        }),
    decreases s.len(),
{
    if s.len() == 1 {
        lemma_scan_decimal(from, s[0]);
        assert(from.numbers + s.drop_last() =~= from.numbers);
    } else {
        let front = s.drop_last();
        let none = Seq::<u8>::empty();
        lemma_scan_items(from, front);
        let at_front = scan(from, items(front));
        lemma_scan_concat(from, items(front) + separator(), decimal(s.last()));
        lemma_scan_concat(from, items(front), separator());
        assert(separator() =~= none.push(0x2c).push(0x20));
        assert(scan(at_front, none) == at_front);
        lemma_scan_push(at_front, none, 0x2c);
        lemma_scan_push(at_front, none.push(0x2c), 0x20);
        let at_separator = scan(at_front, separator());
        assert(at_separator.numbers =~= from.numbers + front);
        lemma_scan_decimal(at_separator, s.last());
    }
}

proof fn lemma_scan_list(from: Scan, s: Seq<u8>)
    ensures
        scan(from, list(s)) == (Scan {
            lists: from.lists.push(s),
            numbers: Seq::empty(),
            number: 0,
            in_number: false,
        }),
{
    let none = Seq::<u8>::empty();
    let opened = scan(from, seq![0x5bu8]);
    assert(scan(from, none) == from);
    assert(seq![0x5bu8] =~= none.push(0x5b));
    lemma_scan_push(from, none, 0x5b);
    lemma_scan_concat(from, seq![0x5bu8], items(s));
    let filled = scan(opened, items(s));
    assert(list(s) =~= (seq![0x5bu8] + items(s)).push(0x5d));
    lemma_scan_push(from, seq![0x5bu8] + items(s), 0x5d);
    if s.len() == 0 {
        assert(filled == opened);
        assert(s =~= none);
    } else {
        lemma_scan_items(opened, s);
        assert((none + s.drop_last()).push(s.last()) =~= s);
    }
}

/// The pre-image keeps the two strings apart and whole: pairs with one
/// pre-image are one pair.
pub proof fn lemma_pre_image_injective(t1: Seq<u8>, a1: Seq<u8>, t2: Seq<u8>, a2: Seq<u8>)
    requires
        pre_image(t1, a1) == pre_image(t2, a2),
    ensures
        t1 == t2,
        a1 == a2,
{
    let start = Scan { lists: Seq::empty(), numbers: Seq::empty(), number: 0, in_number: false };
    lemma_scan_concat(start, list(t1), list(a1));
    lemma_scan_list(start, t1);
    lemma_scan_list(scan(start, list(t1)), a1);
    lemma_scan_concat(start, list(t2), list(a2));
    lemma_scan_list(start, t2);
    lemma_scan_list(scan(start, list(t2)), a2);
    let read1 = scan(start, pre_image(t1, a1)).lists;
    let read2 = scan(start, pre_image(t2, a2)).lists;
    assert(read1 == Seq::<Seq<u8>>::empty().push(t1).push(a1));
    assert(read2 == Seq::<Seq<u8>>::empty().push(t2).push(a2));
    assert(read1[0] == t1 && read1[1] == a1);
    assert(read2[0] == t2 && read2[1] == a2);
}

} // verus!
