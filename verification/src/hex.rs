use vstd::prelude::*;
use vstd::string::StringExecFns;

verus! {

/// The hexadecimal digit for a number below 16, in lower or upper case.
pub open spec fn hex_digit(n: u64, upper: bool) -> char {
    if n == 0 {
        '0'
    } else if n == 1 {
        '1'
    } else if n == 2 {
        '2'
    } else if n == 3 {
        '3'
    } else if n == 4 {
        '4'
    } else if n == 5 {
        '5'
    } else if n == 6 {
        '6'
    } else if n == 7 {
        '7'
    } else if n == 8 {
        '8'
    } else if n == 9 {
        '9'
    } else if n == 10 {
        if upper {
            'A'
        } else {
            'a'
        }
    } else if n == 11 {
        if upper {
            'B'
        } else {
            'b'
        }
    } else if n == 12 {
        if upper {
            'C'
        } else {
            'c'
        }
    } else if n == 13 {
        if upper {
            'D'
        } else {
            'd'
        }
    } else if n == 14 {
        if upper {
            'E'
        } else {
            'e'
        }
    } else {
        if upper {
            'F'
        } else {
            'f'
        }
    }
}

/// The hexadecimal digits of a word without leading zeros; "0" for zero.
pub open spec fn hex_short(w: u64, upper: bool) -> Seq<char>
    decreases w,
{
    if w < 16 {
        seq![hex_digit(w, upper)]
    } else {
        hex_short(w / 16, upper).push(hex_digit(w % 16, upper))
    }
}

/// The last `n` hexadecimal digits of a word, leading zeros included.
pub open spec fn hex_fixed(w: u64, n: nat, upper: bool) -> Seq<char>
    decreases n,
{
    if n == 0 {
        Seq::empty()
    } else {
        hex_fixed(w / 16, (n - 1) as nat, upper).push(hex_digit(w % 16, upper))
    }
}

/// The digits for a list of numbers below 16, the last first.
pub open spec fn digits_reversed(nibbles: Seq<u64>, upper: bool) -> Seq<char> {
    Seq::new(nibbles.len(), |i: int| hex_digit(nibbles[nibbles.len() - 1 - i], upper))
}

/// The digit for a number below 16, as text.
fn digit_text(n: u64, upper: bool) -> (r: &'static str)
    requires
        n < 16,
    ensures
        r@ == seq![hex_digit(n, upper)],
{
    proof {
        reveal_strlit("0");
        reveal_strlit("1");
        reveal_strlit("2");
        reveal_strlit("3");
        reveal_strlit("4");
        reveal_strlit("5");
        reveal_strlit("6");
        reveal_strlit("7");
        reveal_strlit("8");
        reveal_strlit("9");
        reveal_strlit("a");
        reveal_strlit("b");
        reveal_strlit("c");
        reveal_strlit("d");
        reveal_strlit("e");
        reveal_strlit("f");
        reveal_strlit("A");
        reveal_strlit("B");
        reveal_strlit("C");
        reveal_strlit("D");
        reveal_strlit("E");
        reveal_strlit("F");
    }
    let r: &'static str = if n == 0 {
        "0"
    } else if n == 1 {
        "1"
    } else if n == 2 {
        "2"
    } else if n == 3 {
        "3"
    } else if n == 4 {
        "4"
    } else if n == 5 {
        "5"
    } else if n == 6 {
        "6"
    } else if n == 7 {
        "7"
    } else if n == 8 {
        "8"
    } else if n == 9 {
        "9"
    } else if n == 10 {
        if upper {
            "A"
        } else {
            "a"
        }
    } else if n == 11 {
        if upper {
            "B"
        } else {
            "b"
        }
    } else if n == 12 {
        if upper {
            "C"
        } else {
            "c"
        }
    } else if n == 13 {
        if upper {
            "D"
        } else {
            "d"
        }
    } else if n == 14 {
        if upper {
            "E"
        } else {
            "e"
        }
    } else {
        if upper {
            "F"
        } else {
            "f"
        }
    };
    assert(r@ =~= seq![hex_digit(n, upper)]);
    r
}

/// Appends the digits for `nibbles`, the last first.
fn push_reversed(out: &mut String, nibbles: &Vec<u64>, upper: bool)
    requires
        forall|i: int| 0 <= i < nibbles@.len() ==> nibbles@[i] < 16,
    ensures
        final(out)@ == old(out)@ + digits_reversed(nibbles@, upper),
{
    let n: usize = nibbles.len();
    let mut i: usize = n;
    while i > 0
        invariant
            i <= n,
            n == nibbles@.len(),
            forall|j: int| 0 <= j < nibbles@.len() ==> nibbles@[j] < 16,
            out@ == old(out)@ + digits_reversed(nibbles@, upper).take(n - i),
        decreases i,
    {
        i -= 1;
        out.append(digit_text(nibbles[i], upper));
        proof {
            let d = digits_reversed(nibbles@, upper);
            assert(d.take(n - i) =~= d.take(n - i - 1).push(d[n - i - 1]));
            assert(d[n - i - 1] == hex_digit(nibbles@[i as int], upper));
        }
    }
    proof {
        let d = digits_reversed(nibbles@, upper);
        assert(d.take(n as int) =~= d);
    }
}

/// Appends the hexadecimal digits of `w`, without leading zeros.
pub fn push_hex_short(out: &mut String, w: u64, upper: bool)
    ensures
        final(out)@ == old(out)@ + hex_short(w, upper),
{
    let mut nibbles: Vec<u64> = Vec::new();
    let mut cur: u64 = w;
    while cur >= 16
        invariant
            forall|i: int| 0 <= i < nibbles@.len() ==> nibbles@[i] < 16,
            hex_short(w, upper) == hex_short(cur, upper) + digits_reversed(nibbles@, upper),
        decreases cur,
    {
        let ghost before = nibbles@;
        nibbles.push(cur % 16);
        proof {
            assert(digits_reversed(nibbles@, upper) =~= seq![hex_digit(cur % 16, upper)]
                + digits_reversed(before, upper));
            assert(hex_short(cur, upper) == hex_short(cur / 16, upper).push(
                hex_digit(cur % 16, upper),
            ));
            assert(hex_short(cur / 16, upper) + digits_reversed(nibbles@, upper) =~= hex_short(
                cur,
                upper,
            ) + digits_reversed(before, upper));
        }
        cur = cur / 16;
    }
    let ghost before = nibbles@;
    nibbles.push(cur);
    proof {
        assert(digits_reversed(nibbles@, upper) =~= seq![hex_digit(cur, upper)] + digits_reversed(
            before,
            upper,
        ));
    }
    push_reversed(out, &nibbles, upper);
}

/// Appends the 16 hexadecimal digits of `w`, leading zeros included.
pub fn push_hex_fixed(out: &mut String, w: u64, upper: bool)
    ensures
        final(out)@ == old(out)@ + hex_fixed(w, 16, upper),
{
    let mut nibbles: Vec<u64> = Vec::new();
    let mut cur: u64 = w;
    let mut k: usize = 0;
    while k < 16
        invariant
            k <= 16,
            forall|i: int| 0 <= i < nibbles@.len() ==> nibbles@[i] < 16,
            hex_fixed(w, 16, upper) == hex_fixed(cur, (16 - k) as nat, upper) + digits_reversed(
                nibbles@,
                upper,
            ),
        decreases 16 - k,
    {
        let ghost before = nibbles@;
        nibbles.push(cur % 16);
        proof {
            assert(digits_reversed(nibbles@, upper) =~= seq![hex_digit(cur % 16, upper)]
                + digits_reversed(before, upper));
            assert(hex_fixed(cur, (16 - k) as nat, upper) == hex_fixed(
                cur / 16,
                (16 - k - 1) as nat,
                upper,
            ).push(hex_digit(cur % 16, upper)));
            assert(hex_fixed(cur / 16, (16 - k - 1) as nat, upper) + digits_reversed(
                nibbles@,
                upper,
            ) =~= hex_fixed(cur, (16 - k) as nat, upper) + digits_reversed(before, upper));
        }
        cur = cur / 16;
        k += 1;
    }
    proof {
        assert(hex_fixed(cur, 0, upper) + digits_reversed(nibbles@, upper) =~= digits_reversed(
            nibbles@,
            upper,
        ));
    }
    push_reversed(out, &nibbles, upper);
}

} // verus!
