//! The on-disk snapshot naming convention: the physical snapshot name is
//! `<volume>@<height>`, with the height written in plain decimal. The
//! convention must be bit-exact so that snapshots round-trip with volumes
//! written earlier.

use vstd::prelude::*;
use vstd::arithmetic::div_mod::lemma_fundamental_div_mod;
use vstd::arithmetic::div_mod::lemma_mod_bound;

verus! {

/// The character of one decimal digit.
pub open spec fn digit_char(d: nat) -> char {
    if d == 0 {
        '0'
    } else if d == 1 {
        '1'
    } else if d == 2 {
        '2'
    } else if d == 3 {
        '3'
    } else if d == 4 {
        '4'
    } else if d == 5 {
        '5'
    } else if d == 6 {
        '6'
    } else if d == 7 {
        '7'
    } else if d == 8 {
        '8'
    } else {
        '9'
    }
}

/// The decimal representation of a number, most significant digit first,
/// with no leading zeroes (zero itself is written `0`).
pub open spec fn spec_decimal(n: nat) -> Seq<char>
    decreases n,
{
    if n < 10 {
        seq![digit_char(n)]
    } else {
        spec_decimal(n / 10).push(digit_char(n % 10))
    }
}

/// The on-disk name of the snapshot of `volume` at `height`.
pub open spec fn spec_snapshot_name(volume: Seq<char>, height: u64) -> Seq<char> {
    volume + seq!['@'] + spec_decimal(height as nat)
}

/// Whether a character is a decimal digit.
pub open spec fn is_digit(c: char) -> bool {
    '0' <= c && c <= '9'
}

/// The value of one decimal digit character.
pub open spec fn digit_val(c: char) -> nat {
    (c as u32 - '0' as u32) as nat
}

/// Every character of the sequence is a decimal digit.
pub open spec fn all_digits(s: Seq<char>) -> bool {
    forall|i: int| 0 <= i < s.len() ==> is_digit(#[trigger] s[i])
}

/// The number a sequence of decimal digits denotes, most significant digit
/// first.
pub open spec fn spec_digits_val(s: Seq<char>) -> nat
    decreases s.len(),
{
    if s.len() == 0 {
        0
    } else {
        spec_digits_val(s.drop_last()) * 10 + digit_val(s.last())
    }
}

/// A longer digit prefix never denotes a smaller number.
proof fn lemma_digits_val_prefix_mono(s: Seq<char>, i: int)
    requires
        0 <= i <= s.len(),
    ensures
        spec_digits_val(s.take(i)) <= spec_digits_val(s),
    decreases s.len() - i,
{
    if i < s.len() {
        lemma_digits_val_prefix_mono(s, i + 1);
        assert(s.take(i + 1).drop_last() =~= s.take(i));
        assert(s.take(i + 1).last() == s[i]);
        assert(spec_digits_val(s.take(i)) <= spec_digits_val(s.take(i + 1)));
    } else {
        assert(s.take(i) =~= s);
    }
}

/// The digits written for a height denote that height again.
pub proof fn lemma_decimal_round_trip(n: u64)
    ensures
        spec_decimal(n as nat).len() >= 1,
        all_digits(spec_decimal(n as nat)),
        spec_digits_val(spec_decimal(n as nat)) == n as nat,
    decreases n,
{
    let r = spec_decimal(n as nat);
    if n < 10 {
        assert(r =~= seq![digit_char(n as nat)]);
        assert(r.drop_last() =~= Seq::<char>::empty());
        assert(spec_digits_val(Seq::<char>::empty()) == 0);
        assert(digit_val(digit_char(n as nat)) == n as nat);
        assert(spec_digits_val(r) == spec_digits_val(r.drop_last()) * 10 + digit_val(r.last()));
    } else {
        lemma_decimal_round_trip(n / 10);
        let head = spec_decimal((n / 10) as nat);
        assert(r == head.push(digit_char((n % 10) as nat)));
        assert(r.drop_last() =~= head);
        assert(r.last() == digit_char((n % 10) as nat));
        assert(digit_val(digit_char((n % 10) as nat)) == (n % 10) as nat);
        assert forall|i: int| 0 <= i < r.len() implies is_digit(#[trigger] r[i]) by {
            if i < r.len() - 1 {
                assert(r[i] == head[i]);
            }
        }
        assert(spec_digits_val(r) == (n / 10) as nat * 10 + (n % 10) as nat);
        assert(n as int == 10 * ((n as int) / 10) + (n as int) % 10) by {
            lemma_fundamental_div_mod(n as int, 10);
        }
    }
}

/// Parses a decimal height, as written by the naming convention: at least
/// one digit, digits only, and a value that fits the height range.
pub fn parse_height(s: &str) -> (r: Option<u64>)
    ensures
        match r {
            Some(v) => s@.len() >= 1 && all_digits(s@) && v as nat == spec_digits_val(s@),
            None => s@.len() == 0 || !all_digits(s@) || spec_digits_val(s@) > u64::MAX,
        },
{
    let n = s.unicode_len();
    if n == 0 {
        return None;
    }
    let mut acc: u64 = 0;
    let mut i: usize = 0;
    while i < n
        invariant
            0 <= i <= n,
            n == s@.len(),
            forall|j: int| 0 <= j < i ==> is_digit(#[trigger] s@[j]),
            acc as nat == spec_digits_val(s@.take(i as int)),
        decreases n - i,
    {
        let c = s.get_char(i);
        let cu = c as u32;
        if !(48 <= cu && cu <= 57) {
            return None;
        }
        let d = (cu - 48) as u64;
        proof {
            assert(is_digit(s@[i as int]));
            assert(d as nat == digit_val(s@[i as int]));
            assert(s@.take(i + 1 as int).drop_last() =~= s@.take(i as int));
            assert(s@.take(i + 1 as int).last() == s@[i as int]);
        }
        if acc > (u64::MAX - d) / 10 {
            proof {
                let ai = acc as int;
                let m = u64::MAX as int;
                let di = d as int;
                lemma_fundamental_div_mod(m - di, 10);
                lemma_mod_bound(m - di, 10);
                assert(ai * 10 + di > m) by (nonlinear_arith)
                    requires
                        ai >= (m - di) / 10 + 1,
                        m - di == 10 * ((m - di) / 10) + (m - di) % 10,
                        0 <= (m - di) % 10 < 10,
                ;
                lemma_digits_val_prefix_mono(s@, i + 1);
            }
            return None;
        }
        proof {
            let ai = acc as int;
            let m = u64::MAX as int;
            let di = d as int;
            lemma_fundamental_div_mod(m - di, 10);
            lemma_mod_bound(m - di, 10);
            assert(ai * 10 + di <= m) by (nonlinear_arith)
                requires
                    0 <= ai <= (m - di) / 10,
                    m - di == 10 * ((m - di) / 10) + (m - di) % 10,
                    0 <= (m - di) % 10,
            ;
        }
        acc = acc * 10 + d;
        i = i + 1;
    }
    proof {
        assert(s@.take(n as int) =~= s@);
    }
    Some(acc)
}

/// One decimal digit as text.
fn digit_str(d: u64) -> (r: &'static str)
    requires
        d < 10,
    ensures
        r@ == seq![digit_char(d as nat)],
{
    match d {
        0 => {
            proof {
                reveal_strlit("0");
                assert("0"@ =~= seq!['0']);
            }
            "0"
        },
        1 => {
            proof {
                reveal_strlit("1");
                assert("1"@ =~= seq!['1']);
            }
            "1"
        },
        2 => {
            proof {
                reveal_strlit("2");
                assert("2"@ =~= seq!['2']);
            }
            "2"
        },
        3 => {
            proof {
                reveal_strlit("3");
                assert("3"@ =~= seq!['3']);
            }
            "3"
        },
        4 => {
            proof {
                reveal_strlit("4");
                assert("4"@ =~= seq!['4']);
            }
            "4"
        },
        5 => {
            proof {
                reveal_strlit("5");
                assert("5"@ =~= seq!['5']);
            }
            "5"
        },
        6 => {
            proof {
                reveal_strlit("6");
                assert("6"@ =~= seq!['6']);
            }
            "6"
        },
        7 => {
            proof {
                reveal_strlit("7");
                assert("7"@ =~= seq!['7']);
            }
            "7"
        },
        8 => {
            proof {
                reveal_strlit("8");
                assert("8"@ =~= seq!['8']);
            }
            "8"
        },
        _ => {
            proof {
                reveal_strlit("9");
                assert("9"@ =~= seq!['9']);
            }
            "9"
        },
    }
}

/// Writes a height in plain decimal.
pub fn u64_to_decimal(n: u64) -> (r: String)
    ensures
        r@ == spec_decimal(n as nat),
    decreases n,
{
    if n < 10 {
        String::from_str(digit_str(n))
    } else {
        let mut s = u64_to_decimal(n / 10);
        s.append(digit_str(n % 10));
        proof {
            assert(spec_decimal(n as nat) =~= spec_decimal((n / 10) as nat) + seq![
                digit_char((n % 10) as nat),
            ]);
        }
        s
    }
}

/// The on-disk name of the snapshot of `volume` at `height`:
/// `<volume>@<height>`.
pub fn snapshot_name(volume: &str, height: u64) -> (r: String)
    ensures
        r@ == spec_snapshot_name(volume@, height),
{
    let mut s = volume.to_owned();
    proof {
        reveal_strlit("@");
        assert("@"@ =~= seq!['@']);
    }
    s.append("@");
    let num = u64_to_decimal(height);
    s.append(num.as_str());
    s
}

} // verus!
