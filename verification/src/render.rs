//! Verified rendering of numbers, clock times and durations as text.
//!
//! Every public executable function here is deterministic and carries an
//! exact contract over a spec-level description of the produced characters.

use vstd::prelude::*;

verus! {

/// The decimal digit `d` (0 to 9) as a character.
pub open spec fn digit_char(d: int) -> char {
    if d == 0 {
        '0'
    } else if d == 1 {
        '1'
    } else if d == 2 {
        '2'
    } else if d == 3 {
        '3'
    } else if d == 4 {
        '4'
    } else if d == 5 {
        '5'
    } else if d == 6 {
        '6'
    } else if d == 7 {
        '7'
    } else if d == 8 {
        '8'
    } else {
        '9'
    }
}

/// The decimal rendering of `n`, most significant digit first, no padding.
pub open spec fn spec_dec(n: nat) -> Seq<char>
    decreases n,
{
    if n < 10 {
        seq![digit_char(n as int)]
    } else {
        spec_dec(n / 10) + seq![digit_char((n % 10) as int)]
    }
}

/// The decimal rendering of `n`, left-padded with `0` to at least two digits.
pub open spec fn spec_pad2(n: nat) -> Seq<char> {
    if n < 10 {
        seq!['0'] + spec_dec(n)
    } else {
        spec_dec(n)
    }
}

/// A wall-clock time `H:MM:SS` (hour unpadded, minute and second padded).
pub open spec fn spec_clock(h: nat, m: nat, s: nat) -> Seq<char> {
    spec_dec(h) + seq![':'] + spec_pad2(m) + seq![':'] + spec_pad2(s)
}

/// A span of `total` whole seconds: `Ns` under a minute, `M:SS` under an
/// hour, and `HH:MM:SS` otherwise.
pub open spec fn spec_duration(total: nat) -> Seq<char> {
    let h = total / 3600;
    let m = (total % 3600) / 60;
    let s = total % 60;
    if h == 0 && m == 0 {
        spec_dec(s) + seq!['s']
    } else if h == 0 {
        spec_dec(m) + seq![':'] + spec_pad2(s)
    } else {
        spec_pad2(h) + seq![':'] + spec_pad2(m) + seq![':'] + spec_pad2(s)
    }
}

/// The given lines joined with a single newline between each two.
pub open spec fn spec_join(lines: Seq<Seq<char>>) -> Seq<char>
    decreases lines.len(),
{
    if lines.len() == 0 {
        Seq::empty()
    } else if lines.len() == 1 {
        lines[0]
    } else {
        spec_join(lines.drop_last()) + seq!['\n'] + lines.last()
    }
}

fn digit_str(d: u64) -> (r: &'static str)
    requires
        d < 10,
    ensures
        r@ == seq![digit_char(d as int)],
{
    let r: &'static str = if d == 0 {
        "0"
    } else if d == 1 {
        "1"
    } else if d == 2 {
        "2"
    } else if d == 3 {
        "3"
    } else if d == 4 {
        "4"
    } else if d == 5 {
        "5"
    } else if d == 6 {
        "6"
    } else if d == 7 {
        "7"
    } else if d == 8 {
        "8"
    } else {
        "9"
    };
    proof {
        reveal_strlit("0");
        reveal_strlit("1");
        reveal_strlit("2");
        reveal_strlit("3");
        reveal_strlit("4");
        reveal_strlit("5");
        reveal_strlit("6");
        reveal_strlit("7");
        reveal_strlit("8");
        reveal_strlit("9");
        assert(r@ =~= seq![digit_char(d as int)]);
    }
    r
}

/// Render `n` in decimal.
pub fn u64_to_string(n: u64) -> (r: String)
    ensures
        r@ == spec_dec(n as nat),
    decreases n,
{
    if n < 10 {
        String::from_str(digit_str(n))
    } else {
        proof {
            assert(n / 10 < n && (n as nat) / 10 == (n / 10) as nat) by (nonlinear_arith)
                requires
                    n >= 10,
            ;
        }
        let mut s = u64_to_string(n / 10);
        s.append(digit_str(n % 10));
        proof {
            assert(s@ =~= spec_dec(n as nat));
        }
        s
    }
}

/// Render `n` in decimal, padded to at least two digits.
pub fn pad2_string(n: u64) -> (r: String)
    ensures
        r@ == spec_pad2(n as nat),
{
    if n < 10 {
        let mut s = String::from_str("0");
        s.append(digit_str(n));
        proof {
            reveal_strlit("0");
            assert(s@ =~= spec_pad2(n as nat));
        }
        s
    } else {
        u64_to_string(n)
    }
}

/// Render a wall-clock time of day as `H:MM:SS`.
pub fn clock_string(h: u64, m: u64, s: u64) -> (r: String)
    ensures
        r@ == spec_clock(h as nat, m as nat, s as nat),
{
    let mut out = u64_to_string(h);
    out.append(":");
    let mp = pad2_string(m);
    out.append(mp.as_str());
    out.append(":");
    let sp = pad2_string(s);
    out.append(sp.as_str());
    proof {
        reveal_strlit(":");
        assert(out@ =~= spec_clock(h as nat, m as nat, s as nat));
    }
    out
}

/// Render a span of whole seconds per the duration policy.
pub fn duration_string(total: u64) -> (r: String)
    ensures
        r@ == spec_duration(total as nat),
{
    let h = total / 3600;
    let m = (total % 3600) / 60;
    let s = total % 60;
    if h == 0 && m == 0 {
        let mut out = u64_to_string(s);
        out.append("s");
        proof {
            reveal_strlit("s");
            assert(out@ =~= spec_duration(total as nat));
        }
        out
    } else if h == 0 {
        let mut out = u64_to_string(m);
        out.append(":");
        let sp = pad2_string(s);
        out.append(sp.as_str());
        proof {
            reveal_strlit(":");
            assert(out@ =~= spec_duration(total as nat));
        }
        out
    } else {
        let mut out = pad2_string(h);
        out.append(":");
        let mp = pad2_string(m);
        out.append(mp.as_str());
        out.append(":");
        let sp = pad2_string(s);
        out.append(sp.as_str());
        proof {
            reveal_strlit(":");
            assert(out@ =~= spec_duration(total as nat));
        }
        out
    }
}

proof fn lemma_join_push(lines: Seq<Seq<char>>, x: Seq<char>)
    requires
        lines.len() > 0,
    ensures
        spec_join(lines.push(x)) == spec_join(lines) + seq!['\n'] + x,
{
    assert(lines.push(x).drop_last() =~= lines);
    assert(lines.push(x).last() == x);
}

/// Join the given lines with newlines.
pub fn join_lines(v: &Vec<String>) -> (r: String)
    ensures
        r@ == spec_join(v@.map_values(|s: String| s@)),
{
    let ghost all = v@.map_values(|s: String| s@);
    let mut out = String::new();
    let n = v.len();
    if n == 0 {
        proof {
            assert(all.len() == 0);
        }
        return out;
    }
    out.append(v[0].as_str());
    let mut i: usize = 1;
    while i < n
        invariant
            1 <= i <= n,
            n == v@.len(),
            all == v@.map_values(|s: String| s@),
            out@ == spec_join(all.subrange(0, i as int)),
        decreases n - i,
    {
        out.append("\n");
        out.append(v[i].as_str());
        proof {
            reveal_strlit("\n");
            let prefix = all.subrange(0, i as int);
            lemma_join_push(prefix, all[i as int]);
            assert(all.subrange(0, i as int + 1) =~= prefix.push(all[i as int]));
            assert(out@ =~= spec_join(all.subrange(0, i as int + 1)));
        }
        i = i + 1;
    }
    proof {
        assert(all.subrange(0, n as int) =~= all);
    }
    out
}

} // verus!
