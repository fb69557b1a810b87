use vstd::prelude::*;

verus! {

/// ASCII decimal digit.
pub open spec fn is_digit(b: u8) -> bool {
    48 <= b && b <= 57
}

pub open spec fn all_digits(s: Seq<u8>) -> bool {
    forall|i: int| 0 <= i < s.len() ==> is_digit(#[trigger] s[i])
}

/// Value of a digit string read left to right.
pub open spec fn digits_val(s: Seq<u8>) -> int
    decreases s.len(),
{
    if s.len() == 0 {
        0
    } else {
        digits_val(s.drop_last()) * 10 + (s.last() - 48)
    }
}

/// The digits of an integer token, the optional leading sign removed.
pub open spec fn int_body(s: Seq<u8>) -> Seq<u8> {
    if s.len() > 0 && (s[0] == 43 || s[0] == 45) {
        s.drop_first()
    } else {
        s
    }
}

/// The token is an optional `+`/`-` sign followed by one or more digits.
pub open spec fn is_int_token(s: Seq<u8>) -> bool {
    int_body(s).len() > 0 && all_digits(int_body(s))
}

/// The signed value of an integer token.
pub open spec fn int_val(s: Seq<u8>) -> int {
    if s.len() > 0 && s[0] == 45 {
        -digits_val(int_body(s))
    } else {
        digits_val(int_body(s))
    }
}

/// The token is an integer token whose value fits a 32-bit signed integer.
pub open spec fn parses_i32(s: Seq<u8>) -> bool {
    is_int_token(s) && -0x8000_0000 <= int_val(s) && int_val(s) <= 0x7fff_ffff
}

pub proof fn lemma_digits_val_nonneg(s: Seq<u8>)
    requires
        all_digits(s),
    ensures
        digits_val(s) >= 0,
    decreases s.len(),
{
    if s.len() > 0 {
        assert(all_digits(s.drop_last()));
        lemma_digits_val_nonneg(s.drop_last());
    }
}

pub proof fn lemma_digits_val_prefix(s: Seq<u8>, k: int)
    requires
        0 <= k <= s.len(),
        all_digits(s),
    ensures
        digits_val(s.take(k)) <= digits_val(s),
    decreases s.len() - k,
{
    if k < s.len() {
        assert(s.take(k + 1).drop_last() =~= s.take(k));
        assert(s.take(k + 1).last() == s[k]);
        assert(all_digits(s.take(k)));
        lemma_digits_val_nonneg(s.take(k));
        lemma_digits_val_prefix(s, k + 1);
    } else {
        assert(s.take(k) =~= s);
    }
}

/// Reads a signed decimal integer, exactly as a strict scanner would:
/// an optional `+` or `-`, then one or more digits, nothing else, and the
/// value must fit a 32-bit signed integer.
pub fn parse_i32(s: &[u8]) -> (r: Option<i32>)
    ensures
        r is Some <==> parses_i32(s@),
        r matches Some(v) ==> v as int == int_val(s@),
{
    let ghost gs = s@;
    let mut i: usize = 0;
    let mut neg: bool = false;
    if s.len() > 0 && (s[0] == 43 || s[0] == 45) {
        neg = s[0] == 45;
        i = 1;
    }
    let ghost start = i as int;
    proof {
        assert(gs.subrange(start, gs.len() as int) =~= int_body(gs));
    }
    if i == s.len() {
        // empty digit body
        return None;
    }
    let mut acc: u64 = 0;
    while i < s.len()
        invariant
            start <= i as int <= gs.len(),
            start == 0 || start == 1,
            s@ == gs,
            gs.len() > start,
            gs.subrange(start, gs.len() as int) == int_body(gs),
            neg <==> (gs.len() > 0 && gs[0] == 45),
            all_digits(gs.subrange(start, i as int)),
            acc as int == digits_val(gs.subrange(start, i as int)),
            acc <= 0x8000_0000,
        decreases gs.len() - i,
    {
        let b = s[i];
        if !(48 <= b && b <= 57) {
            proof {
                let body = int_body(gs);
                assert(body[i as int - start] == gs[i as int]);
                assert(!all_digits(body));
            }
            return None;
        }
        proof {
            let pre = gs.subrange(start, i as int);
            let nxt = gs.subrange(start, i as int + 1);
            assert(nxt.drop_last() =~= pre);
            assert(nxt.last() == gs[i as int]);
        }
        acc = acc * 10 + ((b - 48) as u64);
        i = i + 1;
        if acc > 0x8000_0000 {
            proof {
                let body = int_body(gs);
                if is_int_token(gs) {
                    assert(gs.subrange(start, i as int) =~= body.take(i as int - start));
                    lemma_digits_val_prefix(body, i as int - start);
                    assert(digits_val(body) > 0x8000_0000);
                    assert(!parses_i32(gs));
                }
            }
            return None;
        }
    }
    proof {
        assert(gs.subrange(start, i as int) =~= int_body(gs));
        assert(is_int_token(gs));
    }
    if neg {
        let m: i64 = -(acc as i64);
        proof {
            assert(int_val(gs) == -(acc as int));
            assert(-0x8000_0000 <= m as int <= 0);
        }
        Some(m as i32)
    } else {
        if acc >= 0x8000_0000 {
            proof {
                assert(int_val(gs) == acc as int);
                assert(!parses_i32(gs));
            }
            None
        } else {
            Some(acc as i32)
        }
    }
}

} // verus!
