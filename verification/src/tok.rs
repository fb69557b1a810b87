use vstd::prelude::*;

verus! {

/// ASCII whitespace: space, tab, line feed, vertical tab, form feed,
/// carriage return.
pub open spec fn is_ws(b: u8) -> bool {
    b == 32 || b == 9 || b == 10 || b == 11 || b == 12 || b == 13
}

/// One step of splitting on runs of whitespace: `cur` is the token being
/// built, `acc` the tokens already finished.
pub open spec fn split_ws_at(s: Seq<u8>, i: int, cur: Seq<u8>, acc: Seq<Seq<u8>>) -> Seq<Seq<u8>>
    decreases s.len() - i,
{
    if i < 0 || i >= s.len() {
        if cur.len() > 0 {
            acc.push(cur)
        } else {
            acc
        }
    } else if is_ws(s[i]) {
        if cur.len() > 0 {
            split_ws_at(s, i + 1, Seq::empty(), acc.push(cur))
        } else {
            split_ws_at(s, i + 1, Seq::empty(), acc)
        }
    } else {
        split_ws_at(s, i + 1, cur.push(s[i]), acc)
    }
}

/// The tokens of a line: maximal runs of non-whitespace bytes, in order.
/// Empty and all-whitespace lines have no tokens.
pub open spec fn tokens_of(s: Seq<u8>) -> Seq<Seq<u8>> {
    split_ws_at(s, 0, Seq::empty(), Seq::empty())
}

/// One step of splitting on a separator byte, keeping empty fields.
pub open spec fn split_sep_at(s: Seq<u8>, sep: u8, i: int, cur: Seq<u8>, acc: Seq<Seq<u8>>) -> Seq<
    Seq<u8>,
>
    decreases s.len() - i,
{
    if i < 0 || i >= s.len() {
        acc.push(cur)
    } else if s[i] == sep {
        split_sep_at(s, sep, i + 1, Seq::empty(), acc.push(cur))
    } else {
        split_sep_at(s, sep, i + 1, cur.push(s[i]), acc)
    }
}

/// The fields of a byte string split on a separator, empty fields kept:
/// there is always at least one field.
pub open spec fn fields_of(s: Seq<u8>, sep: u8) -> Seq<Seq<u8>> {
    split_sep_at(s, sep, 0, Seq::empty(), Seq::empty())
}

pub proof fn lemma_split_sep_at_len(s: Seq<u8>, sep: u8, i: int, cur: Seq<u8>, acc: Seq<Seq<u8>>)
    ensures
        split_sep_at(s, sep, i, cur, acc).len() > acc.len(),
    decreases s.len() - i,
{
    if i < 0 || i >= s.len() {
    } else if s[i] == sep {
        lemma_split_sep_at_len(s, sep, i + 1, Seq::empty(), acc.push(cur));
    } else {
        lemma_split_sep_at_len(s, sep, i + 1, cur.push(s[i]), acc);
    }
}

/// A split always yields at least one field.
pub proof fn lemma_fields_nonempty(s: Seq<u8>, sep: u8)
    ensures
        fields_of(s, sep).len() >= 1,
{
    lemma_split_sep_at_len(s, sep, 0, Seq::empty(), Seq::empty());
}

/// Splits a line on runs of ASCII whitespace into its tokens.
pub fn split_ws(s: &[u8]) -> (r: Vec<Vec<u8>>)
    ensures
        r.deep_view() == tokens_of(s@),
{
    let ghost gs = s@;
    let mut acc: Vec<Vec<u8>> = Vec::new();
    let mut cur: Vec<u8> = Vec::new();
    let mut i: usize = 0;
    proof {
        assert(acc.deep_view() =~= Seq::<Seq<u8>>::empty());
        assert(cur@ =~= Seq::<u8>::empty());
    }
    while i < s.len()
        invariant
            i <= gs.len(),
            s@ == gs,
            split_ws_at(gs, i as int, cur@, acc.deep_view()) == tokens_of(gs),
        decreases gs.len() - i,
    {
        let ghost old_acc = acc.deep_view();
        let ghost old_cur = cur@;
        let b = s[i];
        if b == 32 || b == 9 || b == 10 || b == 11 || b == 12 || b == 13 {
            if cur.len() > 0 {
                acc.push(cur);
                cur = Vec::new();
                proof {
                    assert(acc.deep_view() =~~= old_acc.push(old_cur));
                    assert(cur@ =~= Seq::<u8>::empty());
                }
            } else {
                proof {
                    assert(cur@ =~= Seq::<u8>::empty());
                }
            }
        } else {
            cur.push(b);
            proof {
                assert(cur@ =~= old_cur.push(gs[i as int]));
            }
        }
        i = i + 1;
    }
    if cur.len() > 0 {
        let ghost old_acc = acc.deep_view();
        let ghost old_cur = cur@;
        acc.push(cur);
        proof {
            assert(acc.deep_view() =~~= old_acc.push(old_cur));
        }
    }
    acc
}

/// Splits a byte string on a separator byte, keeping empty fields.
pub fn split_sep(s: &[u8], sep: u8) -> (r: Vec<Vec<u8>>)
    ensures
        r.deep_view() == fields_of(s@, sep),
        r.len() >= 1,
{
    let ghost gs = s@;
    let mut acc: Vec<Vec<u8>> = Vec::new();
    let mut cur: Vec<u8> = Vec::new();
    let mut i: usize = 0;
    proof {
        assert(acc.deep_view() =~= Seq::<Seq<u8>>::empty());
        assert(cur@ =~= Seq::<u8>::empty());
    }
    while i < s.len()
        invariant
            i <= gs.len(),
            s@ == gs,
            split_sep_at(gs, sep, i as int, cur@, acc.deep_view()) == fields_of(gs, sep),
        decreases gs.len() - i,
    {
        let ghost old_acc = acc.deep_view();
        let ghost old_cur = cur@;
        let b = s[i];
        if b == sep {
            acc.push(cur);
            cur = Vec::new();
            proof {
                assert(acc.deep_view() =~~= old_acc.push(old_cur));
                assert(cur@ =~= Seq::<u8>::empty());
            }
        } else {
            cur.push(b);
            proof {
                assert(cur@ =~= old_cur.push(gs[i as int]));
            }
        }
        i = i + 1;
    }
    let ghost old_acc = acc.deep_view();
    let ghost old_cur = cur@;
    acc.push(cur);
    proof {
        assert(acc.deep_view() =~~= old_acc.push(old_cur));
    }
    acc
}

} // verus!
