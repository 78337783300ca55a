//! How the backend lists what an update reports.
use vstd::prelude::*;
use vstd::string::StringExecFns;
use crate::std_calls::push_char;

verus! {

/// Above this many items, the listing puts them all on one line.
pub const ONE_LINE_ABOVE: usize = 40;

/// The upper-case hexadecimal digit of `n`, below 16.
pub open spec fn hex_digit(n: u8) -> char {
    if n < 10 {
        ('0' as u8 + n) as char
    } else {
        ('A' as u8 + (n - 10)) as char
    }
}

/// A device address written as six upper-case two-digit hexadecimal bytes
/// joined by colons, such as `DE:3F:A6:0C:47:EC`.
pub open spec fn mac_text(addr: [u8; 6]) -> Seq<char> {
    Seq::new(
        17,
        |i: int|
            if i % 3 == 2 {
                ':'
            } else if i % 3 == 0 {
                hex_digit(addr[i / 3] / 16)
            } else {
                hex_digit(addr[i / 3] % 16)
            },
    )
}

/// The upper-case hexadecimal digit of `n`.
pub fn hex_digit_char(n: u8) -> (c: char)
    requires
        n < 16,
    ensures
        c == hex_digit(n),
{
    match n {
        0 => '0',
        1 => '1',
        2 => '2',
        3 => '3',
        4 => '4',
        5 => '5',
        6 => '6',
        7 => '7',
        8 => '8',
        9 => '9',
        10 => 'A',
        11 => 'B',
        12 => 'C',
        13 => 'D',
        14 => 'E',
        _ => 'F',
    }
}

/// A device address as text, such as `DE:3F:A6:0C:47:EC`.
pub fn format_mac(addr: [u8; 6]) -> (r: String)
    ensures
        r@ == mac_text(addr),
{
    let mut r = String::new();
    let mut k: usize = 0;
    while k < 6
        invariant
            k <= 6,
            r@.len() == if k == 0 { 0 } else { 3 * k - 1 },
            forall|i: int| 0 <= i < r@.len() ==> r@[i] == mac_text(addr)[i],
        decreases 6 - k,
    {
        if k > 0 {
            push_char(&mut r, ':');
        }
        let b = addr[k];
        push_char(&mut r, hex_digit_char(b / 16));
        push_char(&mut r, hex_digit_char(b % 16));
        k += 1;
    }
    assert(r@ =~= mac_text(addr));
    r
}

/// Every nibble `n` is written as the `n`-th character of
/// `0123456789ABCDEF`, so distinct nibbles give distinct digits.
pub proof fn law_hex_digits()
    ensures
        forall|n: u8|
            n < 16 ==> #[trigger] hex_digit(n) == seq![
                '0', '1', '2', '3', '4', '5', '6', '7', '8', '9', 'A', 'B', 'C', 'D', 'E', 'F',
            ][n as int],
        forall|n: u8, m: u8| n < 16 && m < 16 && n != m ==> #[trigger] hex_digit(n) != #[trigger] hex_digit(m),
{
    let t = seq!['0', '1', '2', '3', '4', '5', '6', '7', '8', '9', 'A', 'B', 'C', 'D', 'E', 'F'];
    assert forall|n: u8| n < 16 implies #[trigger] hex_digit(n) == t[n as int] by {
        assert(hex_digit(n) as u32 == if n < 10 { 48 + n } else { 55 + n });
        assert(t[n as int] as u32 == if n < 10 { 48 + n } else { 55 + n });
    }
}

/// An address is written as its six bytes in order, each as its high then
/// its low nibble in hexadecimal, the bytes joined by colons.
pub proof fn law_mac_layout(addr: [u8; 6])
    ensures
        mac_text(addr).len() == 17,
        forall|k: int|
            0 <= k < 6 ==> #[trigger] mac_text(addr)[3 * k] == hex_digit(addr[k] / 16) && mac_text(addr)[3 * k
                + 1] == hex_digit(addr[k] % 16),
        forall|k: int| 0 <= k < 5 ==> #[trigger] mac_text(addr)[3 * k + 2] == ':',
{
}

/// The items of `list` joined by `sep`.
pub open spec fn seq_join(list: Seq<Seq<char>>, sep: Seq<char>) -> Seq<char>
    decreases list.len(),
{
    if list.len() == 0 {
        Seq::empty()
    } else if list.len() == 1 {
        list[0]
    } else {
        seq_join(list.drop_last(), sep) + sep + list.last()
    }
}

/// A join of one or more items is the first item followed, for each later
/// item in order, by the separator and that item.
pub proof fn law_join_layout(list: Seq<Seq<char>>, sep: Seq<char>)
    requires
        list.len() >= 1,
    ensures
        seq_join(list, sep) == list[0] + Seq::new((list.len() - 1) as nat, |i: int| sep + list[i + 1]).flatten(),
    decreases list.len(),
{
    let rest = Seq::new((list.len() - 1) as nat, |i: int| sep + list[i + 1]);
    if list.len() == 1 {
        assert(rest =~= Seq::<Seq<char>>::empty());
        assert(list[0] + rest.flatten() =~= list[0]);
    } else {
        let d = list.drop_last();
        law_join_layout(d, sep);
        let rd = Seq::new((d.len() - 1) as nat, |i: int| sep + d[i + 1]);
        assert(rest =~= rd.push(sep + list.last()));
        rd.lemma_flatten_push(sep + list.last());
        assert(d[0] == list[0]);
        assert(seq_join(list, sep) == seq_join(d, sep) + sep + list.last());
        assert(seq_join(list, sep) =~= list[0] + rest.flatten());
    }
}

/// The texts of a list of strings.
pub open spec fn texts(list: Seq<String>) -> Seq<Seq<char>> {
    list.map_values(|s: String| s@)
}

/// The items of `list` joined by `sep`.
pub fn join(list: &Vec<String>, sep: &str) -> (r: String)
    ensures
        r@ == seq_join(texts(list@), sep@),
{
    let mut r = String::new();
    let ghost t = texts(list@);
    let mut i: usize = 0;
    while i < list.len()
        invariant
            t == texts(list@),
            i <= list@.len(),
            r@ == seq_join(t.take(i as int), sep@),
        decreases list.len() - i,
    {
        assert(t.take(i + 1).drop_last() =~= t.take(i as int));
        if i > 0 {
            r.append(sep);
        }
        r.append(list[i].as_str());
        proof {
            if i == 0 {
                assert(r@ =~= t.take(1)[0]);
            }
        }
        i += 1;
    }
    assert(t.take(i as int) =~= t);
    r
}

/// The lines that list `items`: one item per line, or, above
/// `ONE_LINE_ABOVE` items, one line with all of them joined by `", "`.
pub fn report_lines(items: &Vec<String>) -> (r: Vec<String>)
    ensures
        items@.len() > ONE_LINE_ABOVE ==> texts(r@) == seq![seq_join(texts(items@), ", "@)],
        items@.len() <= ONE_LINE_ABOVE ==> texts(r@) == texts(items@),
{
    if items.len() > ONE_LINE_ABOVE {
        let mut r: Vec<String> = Vec::new();
        r.push(join(items, ", "));
        assert(texts(r@) =~= seq![seq_join(texts(items@), ", "@)]);
        r
    } else {
        let mut r: Vec<String> = Vec::new();
        let mut i: usize = 0;
        while i < items.len()
            invariant
                i <= items@.len(),
                r@.len() == i,
                texts(r@) == texts(items@).take(i as int),
            decreases items.len() - i,
        {
            let ghost before = r@;
            r.push(items[i].clone());
            assert(r@ == before.push(items@[i as int]));
            assert forall|j: int| 0 <= j < i + 1 implies texts(r@)[j] == texts(items@).take(i + 1)[j] by {
                assert(texts(r@)[j] == r@[j]@);
                if j < i {
                    assert(texts(before)[j] == texts(items@).take(i as int)[j]);
                    assert(texts(before)[j] == before[j]@);
                }
            }
            assert(texts(r@) =~= texts(items@).take(i + 1));
            i += 1;
        }
        assert(texts(items@).take(i as int) =~= texts(items@));
        r
    }
}

} // verus!
