//! A lookup table from tokens to their positions in a token list.
//!
//! The table keeps the list itself and the positions of its distinct tokens in
//! the byte order of the tokens, and searches that order by bisection.

use vstd::prelude::*;
use vstd::utf8::encode_utf8;
use crate::text::{lemma_utf8_injective, same_text};

verus! {

// ---------------------------------------------------------------------------
// Lexicographic order of byte sequences
// ---------------------------------------------------------------------------

/// Whether `a` comes before `b` in lexicographic order.
pub open spec fn lex_less(a: Seq<u8>, b: Seq<u8>) -> bool
    decreases a.len(),
{
    if b.len() == 0 {
        false
    } else if a.len() == 0 {
        true
    } else if a[0] != b[0] {
        a[0] < b[0]
    } else {
        lex_less(a.drop_first(), b.drop_first())
    }
}

proof fn lemma_lex_irreflexive(a: Seq<u8>)
    ensures
        !lex_less(a, a),
    decreases a.len(),
{
    if a.len() > 0 {
        lemma_lex_irreflexive(a.drop_first());
    }
}

proof fn lemma_lex_transitive(a: Seq<u8>, b: Seq<u8>, c: Seq<u8>)
    requires
        lex_less(a, b),
        lex_less(b, c),
    ensures
        lex_less(a, c),
    decreases a.len(),
{
    if a.len() > 0 && a[0] == b[0] && b[0] == c[0] {
        lemma_lex_transitive(a.drop_first(), b.drop_first(), c.drop_first());
    }
}

proof fn lemma_lex_total(a: Seq<u8>, b: Seq<u8>)
    ensures
        lex_less(a, b) || lex_less(b, a) || a == b,
    decreases a.len(),
{
    if a.len() > 0 && b.len() > 0 && a[0] == b[0] {
        lemma_lex_total(a.drop_first(), b.drop_first());
        if a.drop_first() == b.drop_first() {
            assert(a =~= seq![a[0]] + a.drop_first());
            assert(b =~= seq![b[0]] + b.drop_first());
        }
    } else if a.len() == 0 && b.len() == 0 {
        assert(a =~= b);
    }
}

/// Whether `a` comes before `b` in lexicographic order.
fn bytes_less(a: &[u8], b: &[u8]) -> (res: bool)
    ensures
        res == lex_less(a@, b@),
{
    let n: usize = a.len();
    let m: usize = b.len();
    let mut i: usize = 0;
    assert(a@.skip(0) =~= a@);
    assert(b@.skip(0) =~= b@);
    while i < n && i < m
        invariant
            i <= n,
            i <= m,
            n == a@.len(),
            m == b@.len(),
            lex_less(a@.skip(i as int), b@.skip(i as int)) == lex_less(a@, b@),
        decreases n - i,
    {
        let ghost x = a@.skip(i as int);
        let ghost y = b@.skip(i as int);
        assert(x[0] == a@[i as int] && y[0] == b@[i as int]);
        if a[i] != b[i] {
            return a[i] < b[i];
        }
        assert(x.drop_first() =~= a@.skip(i + 1));
        assert(y.drop_first() =~= b@.skip(i + 1));
        i = i + 1;
    }
    i < m
}

// ---------------------------------------------------------------------------
// Tokens and positions
// ---------------------------------------------------------------------------

/// The texts of a list of strings.
pub open spec fn texts(tokens: Seq<String>) -> Seq<Seq<char>> {
    tokens.map_values(|t: String| t@)
}

/// The last position below `n` at which `token` stands in the list.
pub open spec fn last_index_below(tokens: Seq<Seq<char>>, token: Seq<char>, n: int) -> Option<int>
    decreases n,
{
    if n <= 0 {
        None
    } else if tokens[n - 1] == token {
        Some(n - 1)
    } else {
        last_index_below(tokens, token, n - 1)
    }
}

/// The last position at which `token` stands in the list.
pub open spec fn last_index(tokens: Seq<Seq<char>>, token: Seq<char>) -> Option<int> {
    last_index_below(tokens, token, tokens.len() as int)
}

/// What it takes to be the last position of a token.
pub proof fn lemma_last_index_below(tokens: Seq<Seq<char>>, token: Seq<char>, n: int)
    requires
        0 <= n <= tokens.len(),
    ensures
        match last_index_below(tokens, token, n) {
            Some(k) => 0 <= k < n && tokens[k] == token && forall|j: int|
                k < j < n ==> tokens[j] != token,
            None => forall|j: int| 0 <= j < n ==> tokens[j] != token,
        },
    decreases n,
{
    if n > 0 && tokens[n - 1] != token {
        lemma_last_index_below(tokens, token, n - 1);
    }
}

/// Whether position `i` comes before position `j` in the order of the tokens
/// there; equal tokens stand in list order.
spec fn comes_before(tokens: Seq<String>, i: int, j: int) -> bool {
    ||| lex_less(encode_utf8(tokens[i]@), encode_utf8(tokens[j]@))
    ||| tokens[i]@ == tokens[j]@ && i < j
}

proof fn lemma_comes_before_transitive(tokens: Seq<String>, i: int, j: int, k: int)
    requires
        comes_before(tokens, i, j),
        comes_before(tokens, j, k),
    ensures
        comes_before(tokens, i, k),
{
    let a = encode_utf8(tokens[i]@);
    let b = encode_utf8(tokens[j]@);
    let c = encode_utf8(tokens[k]@);
    if lex_less(a, b) && lex_less(b, c) {
        lemma_lex_transitive(a, b, c);
    }
}

spec fn in_order(tokens: Seq<String>, list: Seq<usize>) -> bool {
    forall|x: int, y: int|
        0 <= x < y < list.len() ==> comes_before(
            tokens,
            #[trigger] list[x] as int,
            #[trigger] list[y] as int,
        )
}

/// The list holds exactly the positions from `lo` to `hi`.
spec fn covers(list: Seq<usize>, lo: int, hi: int) -> bool {
    &&& forall|x: int| 0 <= x < list.len() ==> lo <= #[trigger] list[x] < hi
    &&& forall|p: usize| lo <= p < hi ==> #[trigger] list.contains(p)
}

/// Merges the sorted positions `left` from `lo` to `mid` with the sorted
/// positions `right` from `mid` to `hi`.
fn merge_positions(
    tokens: &Vec<String>,
    left: &Vec<usize>,
    right: &Vec<usize>,
    lo: usize,
    mid: usize,
    hi: usize,
) -> (res: Vec<usize>)
    requires
        lo <= mid <= hi <= tokens@.len(),
        in_order(tokens@, left@),
        in_order(tokens@, right@),
        covers(left@, lo as int, mid as int),
        covers(right@, mid as int, hi as int),
    ensures
        in_order(tokens@, res@),
        covers(res@, lo as int, hi as int),
{
    let mut out: Vec<usize> = Vec::new();
    let mut i: usize = 0;
    let mut j: usize = 0;
    while i < left.len() || j < right.len()
        invariant
            lo <= mid <= hi <= tokens@.len(),
            in_order(tokens@, left@),
            in_order(tokens@, right@),
            covers(left@, lo as int, mid as int),
            covers(right@, mid as int, hi as int),
            i <= left@.len(),
            j <= right@.len(),
            in_order(tokens@, out@),
            forall|x: int| 0 <= x < out@.len() ==> lo <= #[trigger] out@[x] < hi,
            forall|x: int| 0 <= x < i ==> out@.contains(#[trigger] left@[x]),
            forall|y: int| 0 <= y < j ==> out@.contains(#[trigger] right@[y]),
            forall|x: int, y: int|
                0 <= x < out@.len() && i <= y < left@.len() ==> comes_before(
                    tokens@,
                    #[trigger] out@[x] as int,
                    #[trigger] left@[y] as int,
                ),
            forall|x: int, y: int|
                0 <= x < out@.len() && j <= y < right@.len() ==> comes_before(
                    tokens@,
                    #[trigger] out@[x] as int,
                    #[trigger] right@[y] as int,
                ),
        decreases left@.len() - i + right@.len() - j,
    {
        let take_left: bool = if i >= left.len() {
            false
        } else if j >= right.len() {
            true
        } else {
            // Equal tokens: the left position is the smaller one.
            !bytes_less(
                tokens[right[j]].as_str().as_bytes(),
                tokens[left[i]].as_str().as_bytes(),
            )
        };
        let ghost before = out@;
        if take_left {
            let p: usize = left[i];
            proof {
                if j < right@.len() {
                    let q = right@[j as int];
                    lemma_lex_total(encode_utf8(tokens@[p as int]@), encode_utf8(tokens@[q as int]@));
                    lemma_utf8_injective(tokens@[p as int]@, tokens@[q as int]@);
                    assert(comes_before(tokens@, p as int, q as int));
                    assert forall|y: int| j <= y < right@.len() implies comes_before(
                        tokens@,
                        p as int,
                        #[trigger] right@[y] as int,
                    ) by {
                        if y > j {
                            lemma_comes_before_transitive(
                                tokens@,
                                p as int,
                                q as int,
                                right@[y] as int,
                            );
                        }
                    }
                }
            }
            out.push(p);
            i = i + 1;
        } else {
            let q: usize = right[j];
            proof {
                if i < left@.len() {
                    let p = left@[i as int];
                    assert(comes_before(tokens@, q as int, p as int));
                    assert forall|y: int| i <= y < left@.len() implies comes_before(
                        tokens@,
                        q as int,
                        #[trigger] left@[y] as int,
                    ) by {
                        if y > i {
                            lemma_comes_before_transitive(
                                tokens@,
                                q as int,
                                p as int,
                                left@[y] as int,
                            );
                        }
                    }
                }
            }
            out.push(q);
            j = j + 1;
        }
        proof {
            assert(out@.last() == out@[before.len() as int]);
            assert forall|p: usize| before.contains(p) implies out@.contains(p) by {
                let x = choose|x: int| 0 <= x < before.len() && before[x] == p;
                assert(out@[x] == p);
            }
        }
    }
    assert forall|p: usize| lo <= p < hi implies #[trigger] out@.contains(p) by {
        if p < mid {
            assert(left@.contains(p));
        } else {
            assert(right@.contains(p));
        }
    }
    out
}

/// The positions from `lo` to `hi` in the order of the tokens there.
fn sort_positions(tokens: &Vec<String>, lo: usize, hi: usize) -> (res: Vec<usize>)
    requires
        lo <= hi <= tokens@.len(),
    ensures
        in_order(tokens@, res@),
        covers(res@, lo as int, hi as int),
    decreases hi - lo,
{
    let mut out: Vec<usize> = Vec::new();
    if hi - lo == 0 {
        return out;
    }
    if hi - lo == 1 {
        out.push(lo);
        assert(out@[0] == lo);
        return out;
    }
    let mid: usize = lo + (hi - lo) / 2;
    let left = sort_positions(tokens, lo, mid);
    let right = sort_positions(tokens, mid, hi);
    merge_positions(tokens, &left, &right, lo, mid, hi)
}

// ---------------------------------------------------------------------------
// The table
// ---------------------------------------------------------------------------

/// A list of tokens that can be searched.
#[derive(Debug)]
pub struct TokenTable {
    tokens: Vec<String>,
    /// The last positions of the distinct tokens, in the order of the tokens.
    order: Vec<usize>,
}

impl Clone for TokenTable {
    fn clone(&self) -> (res: Self)
        ensures
            res.tokens() == self.tokens(),
    {
        proof {
            use_type_invariant(self);
        }
        let tokens = self.tokens.clone();
        let order = self.order.clone();
        assert(tokens@ =~= self.tokens@);
        assert(order@ =~= self.order@);
        TokenTable { tokens, order }
    }
}

impl TokenTable {
    /// The tokens in list order.
    pub closed spec fn tokens(&self) -> Seq<Seq<char>> {
        texts(self.tokens@)
    }

    #[verifier::type_invariant]
    spec fn inv(&self) -> bool {
        &&& forall|x: int| 0 <= x < self.order@.len() ==> #[trigger] self.order@[x]
            < self.tokens@.len()
        &&& forall|x: int, y: int|
            0 <= x < y < self.order@.len() ==> lex_less(
                encode_utf8(self.tokens@[#[trigger] self.order@[x] as int]@),
                encode_utf8(self.tokens@[#[trigger] self.order@[y] as int]@),
            )
        &&& forall|p: int|
            0 <= p < self.tokens@.len() ==> #[trigger] Self::kept(self.tokens@, self.order@, p)
    }

    /// Builds the table of a token list.
    pub fn new(tokens: Vec<String>) -> (res: Self)
        ensures
            res.tokens() == texts(tokens@),
    {
        let n: usize = tokens.len();
        let sorted = sort_positions(&tokens, 0, n);
        let mut order: Vec<usize> = Vec::new();
        let m: usize = sorted.len();
        let mut i: usize = 0;
        while i < m
            invariant
                i <= m,
                m == sorted@.len(),
                in_order(tokens@, sorted@),
                covers(sorted@, 0, tokens@.len() as int),
                forall|x: int|
                    0 <= x < order@.len() ==> #[trigger] order@[x] < tokens@.len(),
                // What is kept comes strictly before what is still to come ...
                forall|x: int, y: int|
                    0 <= x < order@.len() && i <= y < m ==> lex_less(
                        encode_utf8(tokens@[#[trigger] order@[x] as int]@),
                        encode_utf8(tokens@[#[trigger] sorted@[y] as int]@),
                    ),
                forall|x: int, y: int|
                    0 <= x < y < order@.len() ==> lex_less(
                        encode_utf8(tokens@[#[trigger] order@[x] as int]@),
                        encode_utf8(tokens@[#[trigger] order@[y] as int]@),
                    ),
                // ... and every position passed so far has its token either kept
                // or still to come, at a position that is no smaller.
                forall|y: int| 0 <= y < i ==> Self::kept_or_next(
                    tokens@,
                    order@,
                    sorted@,
                    i as int,
                    #[trigger] sorted@[y] as int,
                ),
            decreases m - i,
        {
            let p: usize = sorted[i];
            let last: bool = if i + 1 < m {
                !same_text(tokens[p].as_str(), tokens[sorted[i + 1]].as_str())
            } else {
                true
            };
            let ghost before = order@;
            if last {
                proof {
                    assert forall|y: int| i + 1 <= y < m implies lex_less(
                        encode_utf8(tokens@[p as int]@),
                        encode_utf8(tokens@[#[trigger] sorted@[y] as int]@),
                    ) by {
                        let q = sorted@[i + 1] as int;
                        assert(comes_before(tokens@, sorted@[i as int] as int, q));
                        if y > i + 1 {
                            assert(comes_before(tokens@, q, sorted@[y] as int));
                            if lex_less(
                                encode_utf8(tokens@[q]@),
                                encode_utf8(tokens@[sorted@[y] as int]@),
                            ) {
                                lemma_lex_transitive(
                                    encode_utf8(tokens@[p as int]@),
                                    encode_utf8(tokens@[q]@),
                                    encode_utf8(tokens@[sorted@[y] as int]@),
                                );
                            }
                        }
                    }
                }
                order.push(p);
            }
            proof {
                assert forall|y: int| 0 <= y < i + 1 implies Self::kept_or_next(
                    tokens@,
                    order@,
                    sorted@,
                    i + 1,
                    #[trigger] sorted@[y] as int,
                ) by {
                    let s = sorted@[y] as int;
                    if last {
                        assert(order@[before.len() as int] == p);
                    } else {
                        assert(comes_before(tokens@, p as int, sorted@[i + 1] as int));
                        lemma_lex_irreflexive(encode_utf8(tokens@[p as int]@));
                    }
                    if y < i {
                        assert(Self::kept_or_next(tokens@, before, sorted@, i as int, s));
                        if Self::kept(tokens@, before, s) {
                            let x = choose|x: int|
                                #![trigger before[x]]
                                0 <= x < before.len() && s <= before[x] && tokens@[before[x] as int]@
                                    == tokens@[s]@;
                            assert(order@[x] == before[x]);
                        }
                    }
                }
            }
            i = i + 1;
        }
        proof {
            assert forall|p: int| 0 <= p < tokens@.len() implies #[trigger] Self::kept(
                tokens@,
                order@,
                p,
            ) by {
                assert(sorted@.contains(p as usize));
                let y = choose|y: int| 0 <= y < sorted@.len() && sorted@[y] == p as usize;
                assert(Self::kept_or_next(tokens@, order@, sorted@, m as int, sorted@[y] as int));
            }
        }
        TokenTable { tokens, order }
    }

    spec fn kept(tokens: Seq<String>, order: Seq<usize>, p: int) -> bool {
        exists|x: int|
            #![trigger order[x]]
            0 <= x < order.len() && p <= order[x] && tokens[order[x] as int]@ == tokens[p]@
    }

    spec fn kept_or_next(
        tokens: Seq<String>,
        order: Seq<usize>,
        sorted: Seq<usize>,
        i: int,
        p: int,
    ) -> bool {
        ||| Self::kept(tokens, order, p)
        ||| i < sorted.len() && p <= sorted[i] && tokens[sorted[i] as int]@ == tokens[p]@
    }

    /// Number of tokens in the list.
    pub fn len(&self) -> (res: usize)
        ensures
            res == self.tokens().len(),
    {
        self.tokens.len()
    }

    /// The token at position `i`.
    pub fn token(&self, i: usize) -> (res: &str)
        requires
            i < self.tokens().len(),
        ensures
            res@ == self.tokens()[i as int],
    {
        self.tokens[i].as_str()
    }

    /// Number of distinct tokens in the list.
    pub fn distinct_len(&self) -> (res: usize)
        ensures
            res == self.tokens().to_set().len(),
    {
        proof {
            use_type_invariant(self);
            let kept = self.order@.map_values(|p: usize| self.tokens@[p as int]@);
            assert forall|x: int, y: int| 0 <= x < kept.len() && 0 <= y < kept.len() && x
                != y implies kept[x] != kept[y] by {
                lemma_lex_irreflexive(encode_utf8(kept[x]));
                if x < y {
                    assert(lex_less(
                        encode_utf8(self.tokens@[self.order@[x] as int]@),
                        encode_utf8(self.tokens@[self.order@[y] as int]@),
                    ));
                } else {
                    assert(lex_less(
                        encode_utf8(self.tokens@[self.order@[y] as int]@),
                        encode_utf8(self.tokens@[self.order@[x] as int]@),
                    ));
                }
            }
            kept.unique_seq_to_set();
            assert forall|t: Seq<char>| kept.to_set().contains(t) == #[trigger] self.tokens().to_set().contains(t) by {
                if kept.contains(t) {
                    let x = choose|x: int| 0 <= x < kept.len() && kept[x] == t;
                    assert(self.tokens()[self.order@[x] as int] == t);
                }
                if self.tokens().contains(t) {
                    let p = choose|p: int| 0 <= p < self.tokens().len() && self.tokens()[p] == t;
                    assert(Self::kept(self.tokens@, self.order@, p));
                    let x = choose|x: int|
                        #![trigger self.order@[x]]
                        0 <= x < self.order@.len() && p <= self.order@[x]
                            && self.tokens@[self.order@[x] as int]@ == self.tokens@[p]@;
                    assert(kept[x] == t);
                }
            }
            assert(kept.to_set() =~= self.tokens().to_set());
        }
        self.order.len()
    }

    /// The last position of `token` in the list.
    pub fn find(&self, token: &str) -> (res: Option<usize>)
        ensures
            match res {
                Some(k) => last_index(self.tokens(), token@) == Some(k as int),
                None => last_index(self.tokens(), token@) is None,
            },
    {
        let wanted = token.as_bytes();
        let ghost key = encode_utf8(token@);
        let mut lo: usize = 0;
        let mut hi: usize = self.order.len();
        proof {
            use_type_invariant(self);
            lemma_last_index_below(self.tokens(), token@, self.tokens().len() as int);
        }
        while lo < hi
            invariant
                self.inv(),
                wanted@ == key,
                lo <= hi <= self.order@.len(),
                forall|x: int|
                    0 <= x < lo ==> !lex_less(
                        key,
                        encode_utf8(self.tokens@[#[trigger] self.order@[x] as int]@),
                    ),
                forall|x: int|
                    hi <= x < self.order@.len() ==> lex_less(
                        key,
                        encode_utf8(self.tokens@[#[trigger] self.order@[x] as int]@),
                    ),
            decreases hi - lo,
        {
            let mid: usize = lo + (hi - lo) / 2;
            let there = self.tokens[self.order[mid]].as_str();
            if bytes_less(wanted, there.as_bytes()) {
                proof {
                    assert forall|x: int| mid <= x < self.order@.len() implies lex_less(
                        key,
                        encode_utf8(self.tokens@[#[trigger] self.order@[x] as int]@),
                    ) by {
                        if x > mid {
                            lemma_lex_transitive(
                                key,
                                encode_utf8(self.tokens@[self.order@[mid as int] as int]@),
                                encode_utf8(self.tokens@[self.order@[x] as int]@),
                            );
                        }
                    }
                }
                hi = mid;
            } else {
                proof {
                    assert forall|x: int| 0 <= x <= mid implies !lex_less(
                        key,
                        encode_utf8(self.tokens@[#[trigger] self.order@[x] as int]@),
                    ) by {
                        if x < mid && lex_less(
                            key,
                            encode_utf8(self.tokens@[self.order@[x] as int]@),
                        ) {
                            lemma_lex_transitive(
                                key,
                                encode_utf8(self.tokens@[self.order@[x] as int]@),
                                encode_utf8(self.tokens@[self.order@[mid as int] as int]@),
                            );
                        }
                    }
                }
                lo = mid + 1;
            }
        }
        proof {
            lemma_lex_irreflexive(key);
            assert forall|p: int| 0 <= p < self.tokens@.len() && (#[trigger] self.tokens@[p])@
                == token@ implies lo > 0 && self.tokens@[self.order@[lo - 1] as int]@ == token@ && p
                <= self.order@[lo - 1] by {
                assert(Self::kept(self.tokens@, self.order@, p));
                let x = choose|x: int|
                    #![trigger self.order@[x]]
                    0 <= x < self.order@.len() && p <= self.order@[x]
                        && self.tokens@[self.order@[x] as int]@ == self.tokens@[p]@;
                assert(encode_utf8(self.tokens@[self.order@[x] as int]@) == key);
                assert(x < lo);
                if x < lo - 1 {
                    assert(lex_less(
                        encode_utf8(self.tokens@[self.order@[x] as int]@),
                        encode_utf8(self.tokens@[self.order@[lo - 1] as int]@),
                    ));
                }
            }
        }
        if lo == 0 {
            proof {
                if last_index(self.tokens(), token@) is Some {
                    let k = last_index(self.tokens(), token@).unwrap();
                    assert(self.tokens@[k]@ == token@);
                }
            }
            return None;
        }
        let p: usize = self.order[lo - 1];
        if same_text(self.tokens[p].as_str(), token) {
            proof {
                assert(self.tokens()[p as int] == token@);
                let k = last_index(self.tokens(), token@).unwrap();
                assert(self.tokens@[k]@ == token@);
            }
            Some(p)
        } else {
            proof {
                if last_index(self.tokens(), token@) is Some {
                    let k = last_index(self.tokens(), token@).unwrap();
                    assert(self.tokens@[k]@ == token@);
                }
            }
            None
        }
    }
}

} // verus!
