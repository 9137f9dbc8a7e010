//! Building the deterministic text of readouts: hexadecimal and decimal
//! renderings of integers and the `fnv1a64:` hash label.

use vstd::prelude::*;

verus! {

/// The lower-case hexadecimal digit for `d < 16`.
pub open spec fn hex_char(d: nat) -> char {
    if d < 10 {
        (('0' as nat) + d) as char
    } else {
        (('a' as nat) + d - 10) as char
    }
}

/// The `n` low-order hexadecimal digits of `x`, most significant first
/// (`format!("{:0n$x}")` for values below `16^n`).
pub open spec fn hex_digits(x: nat, n: nat) -> Seq<char>
    decreases n,
{
    if n == 0 {
        Seq::empty()
    } else {
        hex_digits(x / 16, (n - 1) as nat).push(hex_char(x % 16))
    }
}

/// `format!("{:016x}", h)`.
pub open spec fn hex16(h: u64) -> Seq<char> {
    hex_digits(h as nat, 16)
}

/// Digit values rendered as hexadecimal characters.
pub open spec fn hex_text(s: Seq<u8>) -> Seq<char> {
    s.map_values(|d: u8| hex_char(d as nat))
}

/// Digit values rendered as decimal characters.
pub open spec fn dec_text(s: Seq<u8>) -> Seq<char> {
    s.map_values(|d: u8| dec_char(d as nat))
}

/// The decimal digit for `d < 10`.
pub open spec fn dec_char(d: nat) -> char {
    (('0' as nat) + d) as char
}

/// `format!("{}", x)` for a natural number.
pub open spec fn dec_digits(x: nat) -> Seq<char>
    decreases x,
{
    if x < 10 {
        seq![dec_char(x)]
    } else {
        dec_digits(x / 10).push(dec_char(x % 10))
    }
}

/// `format!("{}", x)` for a signed integer.
pub open spec fn int_text(x: int) -> Seq<char> {
    if x < 0 {
        seq!['-'] + dec_digits((-x) as nat)
    } else {
        dec_digits(x as nat)
    }
}

/// The text `fnv1a64:` followed by the sixteen hexadecimal digits of `h`.
pub open spec fn fnv_label_text(h: u64) -> Seq<char> {
    seq!['f', 'n', 'v', '1', 'a', '6', '4', ':'] + hex16(h)
}

pub proof fn lemma_hex_digits_len(x: nat, n: nat)
    ensures
        hex_digits(x, n).len() == n,
    decreases n,
{
    if n > 0 {
        lemma_hex_digits_len(x / 16, (n - 1) as nat);
    }
}

/// A one-character string literal for the hexadecimal digit `d`.
fn hex_digit_str(d: u8) -> (s: &'static str)
    requires
        d < 16,
    ensures
        s@ == seq![hex_char(d as nat)],
{
    proof {
        reveal_strlit("0");
        reveal_strlit("1");
        reveal_strlit("2");
        reveal_strlit("3");
        reveal_strlit("4");
        reveal_strlit("5");
        reveal_strlit("6");
        reveal_strlit("7");
        reveal_strlit("8");
        reveal_strlit("9");
        reveal_strlit("a");
        reveal_strlit("b");
        reveal_strlit("c");
        reveal_strlit("d");
        reveal_strlit("e");
        reveal_strlit("f");
    }
    let s = match d {
        0 => "0",
        1 => "1",
        2 => "2",
        3 => "3",
        4 => "4",
        5 => "5",
        6 => "6",
        7 => "7",
        8 => "8",
        9 => "9",
        10 => "a",
        11 => "b",
        12 => "c",
        13 => "d",
        14 => "e",
        _ => "f",
    };
    assert(s@ =~= seq![hex_char(d as nat)]);
    s
}

/// Append the sixteen zero-padded lower-case hexadecimal digits of `h`.
pub fn push_hex16(out: &mut String, h: u64)
    ensures
        final(out)@ == old(out)@ + hex16(h),
{
    let mut vals: Vec<u8> = Vec::new();
    let mut k: usize = 0;
    while k < 16
        invariant
            k <= 16,
            vals@.len() == k,
            forall|j: int| 0 <= j < k ==> vals@[j] == 0,
        decreases 16 - k,
    {
        vals.push(0);
        k = k + 1;
    }
    let mut x = h;
    let mut i: usize = 0;
    while i < 16
        invariant
            i <= 16,
            vals@.len() == 16,
            forall|j: int| 0 <= j < 16 ==> vals@[j] < 16,
            hex16(h) == hex_digits(x as nat, (16 - i) as nat) + hex_text(
                vals@.subrange(16 - i, 16),
            ),
        decreases 16 - i,
    {
        let d = (x % 16) as u8;
        let ghost before = vals@;
        vals.set(15 - i, d);
        assert(forall|j: int| 0 <= j < 16 ==> vals@[j] < 16) by {
            assert(forall|j: int| 0 <= j < 16 && j != 15 - i ==> vals@[j] == before[j]);
        }
        proof {
            let tail_old = hex_text(before.subrange(16 - i, 16));
            let tail_new = hex_text(vals@.subrange(15 - i, 16));
            assert(tail_new =~= seq![hex_char(d as nat)] + tail_old);
            assert(hex_digits(x as nat, (16 - i) as nat) == hex_digits(
                (x / 16) as nat,
                (15 - i) as nat,
            ).push(hex_char(d as nat)));
            assert(hex_digits((x / 16) as nat, (15 - i) as nat).push(hex_char(d as nat))
                + tail_old =~= hex_digits((x / 16) as nat, (15 - i) as nat) + tail_new);
        }
        x = x / 16;
        i = i + 1;
    }
    proof {
        assert(hex_digits(x as nat, 0) =~= Seq::<char>::empty());
        assert(vals@.subrange(0, 16) =~= vals@);
        assert(hex16(h) =~= hex_text(vals@));
    }
    let ghost start = out@;
    let mut j: usize = 0;
    while j < 16
        invariant
            j <= 16,
            vals@.len() == 16,
            forall|t: int| 0 <= t < 16 ==> vals@[t] < 16,
            hex16(h) == hex_text(vals@),
            out@ == start + hex_text(vals@.take(j as int)),
        decreases 16 - j,
    {
        let s = hex_digit_str(vals[j]);
        out.append(s);
        proof {
            assert(hex_text(vals@.take(j + 1)) =~= hex_text(vals@.take(j as int)) + s@);
            assert(start + hex_text(vals@.take(j as int)) + s@ =~= start + (hex_text(
                vals@.take(j as int),
            ) + s@));
        }
        j = j + 1;
    }
    assert(vals@.take(16) =~= vals@);
}

/// Append the decimal text of `x`.
pub fn push_dec(out: &mut String, x: u64)
    ensures
        final(out)@ == old(out)@ + dec_digits(x as nat),
{
    // Digits are collected least significant first, then appended in reverse.
    let mut rev: Vec<u8> = Vec::new();
    let mut y = x;
    while y >= 10
        invariant
            forall|t: int| 0 <= t < rev@.len() ==> rev@[t] < 10,
            dec_digits(x as nat) == dec_digits(y as nat) + dec_text(rev@.reverse()),
        decreases y,
    {
        let d = (y % 10) as u8;
        proof {
            assert(dec_digits(y as nat) == dec_digits((y / 10) as nat).push(dec_char(d as nat)));
            assert(dec_text(rev@.push(d).reverse()) =~= seq![dec_char(d as nat)] + dec_text(
                rev@.reverse(),
            ));
            assert(dec_digits((y / 10) as nat).push(dec_char(d as nat)) + dec_text(rev@.reverse())
                =~= dec_digits((y / 10) as nat) + (seq![dec_char(d as nat)] + dec_text(
                rev@.reverse(),
            )));
        }
        rev.push(d);
        y = y / 10;
    }
    proof {
        assert(dec_text(rev@.push(y as u8).reverse()) =~= seq![dec_char(y as nat)] + dec_text(
            rev@.reverse(),
        ));
    }
    rev.push(y as u8);
    assert(dec_digits(x as nat) =~= dec_text(rev@.reverse()));
    let ghost start = out@;
    let mut j: usize = rev.len();
    while j > 0
        invariant
            j <= rev@.len(),
            forall|t: int| 0 <= t < rev@.len() ==> rev@[t] < 10,
            out@ == start + dec_text(rev@.subrange(j as int, rev@.len() as int).reverse()),
        decreases j,
    {
        j = j - 1;
        let s = hex_digit_str(rev[j]);
        proof {
            assert(hex_char(rev@[j as int] as nat) == dec_char(rev@[j as int] as nat));
            assert(dec_text(rev@.subrange(j as int, rev@.len() as int).reverse()) =~= dec_text(
                rev@.subrange(j + 1, rev@.len() as int).reverse(),
            ) + s@);
        }
        out.append(s);
        proof {
            assert(start + dec_text(rev@.subrange(j + 1, rev@.len() as int).reverse()) + s@
                =~= start + (dec_text(rev@.subrange(j + 1, rev@.len() as int).reverse())
                + s@));
        }
    }
    assert(rev@.subrange(0, rev@.len() as int) =~= rev@);
}

/// Append the decimal text of a signed integer.
pub fn push_int(out: &mut String, x: i64)
    ensures
        final(out)@ == old(out)@ + int_text(x as int),
{
    if x < 0 {
        proof {
            reveal_strlit("-");
        }
        out.append("-");
        let ghost mid = out@;
        let mag: u64 = if x == i64::MIN {
            0x8000_0000_0000_0000u64
        } else {
            (-x) as u64
        };
        push_dec(out, mag);
        assert(out@ =~= old(out)@ + int_text(x as int));
    } else {
        push_dec(out, x as u64);
    }
}

/// Append the label `fnv1a64:` followed by the sixteen hexadecimal digits of `h`.
pub fn push_fnv_label(out: &mut String, h: u64)
    ensures
        final(out)@ == old(out)@ + fnv_label_text(h),
{
    proof {
        reveal_strlit("fnv1a64:");
    }
    out.append("fnv1a64:");
    push_hex16(out, h);
    assert(out@ =~= old(out)@ + fnv_label_text(h));
}

/// `format!("fnv1a64:{h:016x}")`.
pub fn fnv_label(h: u64) -> (s: String)
    ensures
        s@ == fnv_label_text(h),
{
    let mut s = String::new();
    push_fnv_label(&mut s, h);
    assert(s@ =~= fnv_label_text(h));
    s
}

} // verus!
