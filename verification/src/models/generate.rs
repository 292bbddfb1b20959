//! Greedy generation: the next token is the one with the greatest logit.

use vstd::prelude::*;
use vstd::slice::slice_to_vec;
use crate::num::{can_order, greater, is_greater};

verus! {

/// The position that comes out of a search for the greatest of the first `n`
/// elements: each element takes the place of the best so far unless that one is
/// greater. Of equal ones it is thus the last.
pub open spec fn argmax_gives<T: PartialOrd>(data: Seq<T>, n: int, r: int) -> bool
    decreases n,
{
    if n <= 1 {
        r == 0
    } else {
        exists|best: int, greater: bool|
            #![trigger is_greater(data[best], data[n - 1], greater)]
            argmax_gives(data, n - 1, best) && is_greater(data[best], data[n - 1], greater) && r
                == if greater {
                best
            } else {
                n - 1
            }
    }
}

/// The search gives a position of the elements, and zero where there is none.
pub proof fn lemma_argmax_in_range<T: PartialOrd>(data: Seq<T>, n: int, r: int)
    requires
        argmax_gives(data, n, r),
    ensures
        0 <= r,
        r < n || r == 0,
    decreases n,
{
    if n > 1 {
        let (best, greater) = choose|best: int, greater: bool|
            #![trigger is_greater(data[best], data[n - 1], greater)]
            argmax_gives(data, n - 1, best) && is_greater(data[best], data[n - 1], greater) && r
                == if greater {
                best
            } else {
                n - 1
            };
        lemma_argmax_in_range(data, n - 1, best);
    }
}

/// Where `>` orders the elements as `rank` does, the search gives the greatest
/// element, and of equal ones the last.
pub proof fn lemma_argmax_is_greatest<T: PartialOrd>(
    data: Seq<T>,
    n: int,
    r: int,
    rank: spec_fn(T) -> int,
)
    requires
        0 < n <= data.len(),
        argmax_gives(data, n, r),
        ordered_by(rank),
    ensures
        0 <= r < n,
        forall|i: int| 0 <= i < n ==> rank(#[trigger] data[i]) <= rank(data[r]),
        forall|i: int| r < i < n ==> rank(#[trigger] data[i]) < rank(data[r]),
    decreases n,
{
    if n > 1 {
        let (best, greater) = choose|best: int, greater: bool|
            #![trigger is_greater(data[best], data[n - 1], greater)]
            argmax_gives(data, n - 1, best) && is_greater(data[best], data[n - 1], greater) && r
                == if greater {
                best
            } else {
                n - 1
            };
        lemma_argmax_is_greatest(data, n - 1, best, rank);
    }
}

/// Position of the greatest element; of equal ones the last.
pub fn argmax<T: Copy + PartialOrd>(data: &[T]) -> (res: usize)
    requires
        can_order::<T>(),
    ensures
        argmax_gives(data@, data@.len() as int, res as int),
        data@.len() > 0 ==> res < data@.len(),
{
    let n: usize = data.len();
    let mut best: usize = 0;
    let mut i: usize = 1;
    while i < n
        invariant
            1 <= i,
            n == data@.len(),
            n > 0 ==> best < n && i <= n,
            n == 0 ==> i == 1 && best == 0,
            can_order::<T>(),
            argmax_gives(data@, i as int, best as int),
        decreases n - i,
    {
        let ghost prev = best as int;
        let stays: bool = greater(data[best], data[i]);
        if !stays {
            best = i;
        }
        i = i + 1;
        assert(is_greater(data@[prev], data@[i as int - 1], stays));
    }
    best
}

/// How generation goes on from `ids` when at most `n` tokens may still come:
/// each token is one that `next` allows behind the tokens before it, and no
/// token follows the end token or once the sequence has `limit` tokens.
pub open spec fn generates(
    next: spec_fn(Seq<u32>, u32) -> bool,
    limit: Option<usize>,
    eos: Option<u32>,
    ids: Seq<u32>,
    n: nat,
    out: Seq<u32>,
) -> bool
    decreases n,
{
    if n == 0 || (limit matches Some(l) && ids.len() >= l) {
        out == ids
    } else {
        exists|token: u32|
            #[trigger] next(ids, token) && if eos == Some(token) {
                out == ids.push(token)
            } else {
                generates(next, limit, eos, ids.push(token), (n - 1) as nat, out)
            }
    }
}

/// Generation keeps what was there and adds at most `n` tokens, staying within
/// the limit. The end token can only come last. Fewer than `n` tokens come only
/// where the limit or the end token stopped it.
pub proof fn lemma_generation(
    next: spec_fn(Seq<u32>, u32) -> bool,
    limit: Option<usize>,
    eos: Option<u32>,
    ids: Seq<u32>,
    n: nat,
    out: Seq<u32>,
)
    requires
        generates(next, limit, eos, ids, n, out),
    ensures
        ids.len() <= out.len() <= ids.len() + n,
        out.take(ids.len() as int) == ids,
        limit matches Some(l) ==> out.len() <= l || out.len() == ids.len(),
        forall|i: int| ids.len() <= i < out.len() - 1 ==> eos != Some(#[trigger] out[i]),
        out.len() < ids.len() + n ==> (limit matches Some(l) && out.len() >= l) || (out.len()
            > ids.len() && eos == Some(out.last())),
    decreases n,
{
    if n == 0 || (limit matches Some(l) && ids.len() >= l) {
        assert(out.take(ids.len() as int) =~= ids);
    } else {
        let token = choose|token: u32|
            #[trigger] next(ids, token) && if eos == Some(token) {
                out == ids.push(token)
            } else {
                generates(next, limit, eos, ids.push(token), (n - 1) as nat, out)
            };
        let longer = ids.push(token);
        if eos != Some(token) {
            lemma_generation(next, limit, eos, longer, (n - 1) as nat, out);
            assert(out[ids.len() as int] == out.take(longer.len() as int)[ids.len() as int]);
            assert(out.take(ids.len() as int) =~= out.take(longer.len() as int).take(
                ids.len() as int,
            ));
            assert(longer.take(ids.len() as int) =~= ids);
        } else {
            assert(out.take(ids.len() as int) =~= ids);
        }
    }
}

/// Each token that generation adds is one that `next` allows behind the tokens
/// before it.
pub proof fn lemma_each_token_follows(
    next: spec_fn(Seq<u32>, u32) -> bool,
    limit: Option<usize>,
    eos: Option<u32>,
    ids: Seq<u32>,
    n: nat,
    out: Seq<u32>,
    i: int,
)
    requires
        generates(next, limit, eos, ids, n, out),
        ids.len() <= i < out.len(),
    ensures
        next(out.take(i), out[i]),
    decreases n,
{
    if n > 0 && !(limit matches Some(l) && ids.len() >= l) {
        let token = choose|token: u32|
            #[trigger] next(ids, token) && if eos == Some(token) {
                out == ids.push(token)
            } else {
                generates(next, limit, eos, ids.push(token), (n - 1) as nat, out)
            };
        let longer = ids.push(token);
        if eos == Some(token) {
            assert(out.take(i) =~= ids);
        } else {
            lemma_generation(next, limit, eos, longer, (n - 1) as nat, out);
            if i == ids.len() {
                assert(out.take(i) =~= out.take(longer.len() as int).take(i));
                assert(longer.take(i) =~= ids);
                assert(out[i] == out.take(longer.len() as int)[i]);
            } else {
                lemma_each_token_follows(next, limit, eos, longer, (n - 1) as nat, out, i);
            }
        }
    }
}

/// The element at `r` is the greatest by rank, and of equal ones the last.
pub open spec fn is_greatest<T>(data: Seq<T>, rank: spec_fn(T) -> int, r: int) -> bool {
    &&& 0 <= r < data.len()
    &&& forall|i: int| 0 <= i < data.len() ==> rank(#[trigger] data[i]) <= rank(data[r])
    &&& forall|i: int| r < i < data.len() ==> rank(#[trigger] data[i]) < rank(data[r])
}

/// `>` orders the elements as `rank` does.
pub open spec fn ordered_by<T: PartialOrd>(rank: spec_fn(T) -> int) -> bool {
    forall|a: T, b: T, greater: bool|
        #[trigger] is_greater(a, b, greater) ==> greater == (rank(a) > rank(b))
}

/// Generation from `ids`, with at most `n` tokens still to come, never gets
/// stuck: wherever it needs a token it can find one, whichever of the tokens
/// that `next` allows came before.
pub open spec fn runs_through(
    next: spec_fn(Seq<u32>, u32) -> bool,
    ready: spec_fn(Seq<u32>) -> bool,
    limit: Option<usize>,
    eos: Option<u32>,
    ids: Seq<u32>,
    n: nat,
) -> bool
    decreases n,
{
    n == 0 || (limit matches Some(l) && ids.len() >= l) || {
        &&& ready(ids)
        &&& forall|token: u32|
            #[trigger] next(ids, token) && eos != Some(token) ==> runs_through(
                next,
                ready,
                limit,
                eos,
                ids.push(token),
                (n - 1) as nat,
            )
    }
}

/// Generates greedily. `pick` gives a token that `next` allows behind a
/// sequence, or nothing where the sequence is not ready; generation then ends
/// with nothing.
pub(crate) fn generate<P: Fn(&[u32]) -> Option<u32>>(
    prompt_ids: &[u32],
    max_new_tokens: usize,
    limit: Option<usize>,
    eos: Option<u32>,
    pick: &P,
    Ghost(next): Ghost<spec_fn(Seq<u32>, u32) -> bool>,
    Ghost(ready): Ghost<spec_fn(Seq<u32>) -> bool>,
) -> (res: Option<Vec<u32>>)
    requires
        forall|s: &[u32]| #[trigger] call_requires(*pick, (s,)),
        forall|s: &[u32], found: Option<u32>| #[trigger]
            call_ensures(*pick, (s,), found) ==> match found {
                Some(token) => next(s@, token),
                None => !ready(s@),
            },
    ensures
        match res {
            Some(out) => generates(
                next,
                limit,
                eos,
                prompt_ids@,
                max_new_tokens as nat,
                out@,
            ),
            None => !runs_through(
                next,
                ready,
                limit,
                eos,
                prompt_ids@,
                max_new_tokens as nat,
            ),
        },
{
    let mut ids = slice_to_vec(prompt_ids);
    let mut left: usize = max_new_tokens;
    while left > 0
        invariant_except_break
            left <= max_new_tokens,
            forall|s: &[u32]| #[trigger] call_requires(*pick, (s,)),
            forall|s: &[u32], found: Option<u32>| #[trigger]
                call_ensures(*pick, (s,), found) ==> match found {
                    Some(token) => next(s@, token),
                    None => !ready(s@),
                },
            forall|out: Seq<u32>|
                #[trigger] generates(next, limit, eos, ids@, left as nat, out) ==> generates(
                    next,
                    limit,
                    eos,
                    prompt_ids@,
                    max_new_tokens as nat,
                    out,
                ),
            left == 0 ==> generates(
                next,
                limit,
                eos,
                prompt_ids@,
                max_new_tokens as nat,
                ids@,
            ),
            runs_through(
                next,
                ready,
                limit,
                eos,
                prompt_ids@,
                max_new_tokens as nat,
            ) ==> runs_through(next, ready, limit, eos, ids@, left as nat),
        ensures
            generates(next, limit, eos, prompt_ids@, max_new_tokens as nat, ids@),
        decreases left,
    {
        let full = match limit {
            Some(l) => ids.len() >= l,
            None => false,
        };
        if full {
            assert(generates(next, limit, eos, ids@, left as nat, ids@));
            break;
        }
        let ghost before = ids@;
        let token: u32 = match pick(ids.as_slice()) {
            Some(token) => token,
            None => {
                return None;
            },
        };
        assert(next(before, token));
        ids.push(token);
        assert(ids@ == before.push(token));
        let stop = match eos {
            Some(e) => e == token,
            None => false,
        };
        if stop {
            assert(generates(next, limit, eos, before, left as nat, ids@));
            break;
        }
        left = left - 1;
        proof {
            assert forall|out: Seq<u32>|
                #[trigger] generates(next, limit, eos, ids@, left as nat, out) implies generates(
                next,
                limit,
                eos,
                prompt_ids@,
                max_new_tokens as nat,
                out,
            ) by {
                assert(generates(next, limit, eos, before, (left + 1) as nat, out));
            }
            assert(left == 0 ==> generates(next, limit, eos, ids@, left as nat, ids@));
        }
    }
    Some(ids)
}

} // verus!
