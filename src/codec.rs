//! The word codec: a bounded unsigned integer written as a space-separated
//! sequence of dictionary words, least significant digit first, in base N
//! where N is the number of words in the dictionary.

use vstd::prelude::*;
use vstd::arithmetic::div_mod::*;
use vstd::arithmetic::power::*;
use vstd::string::*;
use vstd::utf8::*;
use core::cmp::Ordering;
use crate::errors::FetchError;
use crate::transport::{ClientTransport, PartialTransport, Transport};

verus! {

broadcast use vstd::utf8::encode_utf8_decode_utf8;

// ---------------------------------------------------------------------------
// Byte order of words
// ---------------------------------------------------------------------------

/// `a` and `b` agree below `k`, and `k` is where `a` falls below `b`: either
/// `a` ends there while `b` goes on, or both go on with a smaller byte in `a`.
pub open spec fn bytes_lt_at(a: Seq<u8>, b: Seq<u8>, k: int) -> bool {
    &&& 0 <= k <= a.len()
    &&& k <= b.len()
    &&& forall|i: int| 0 <= i < k ==> a[i] == b[i]
    &&& (k == a.len() && k < b.len()) || (k < a.len() && k < b.len() && a[k] < b[k])
}

/// Strict lexicographic order on byte strings.
pub open spec fn bytes_lt(a: Seq<u8>, b: Seq<u8>) -> bool {
    exists|k: int| #[trigger] bytes_lt_at(a, b, k)
}

/// Word `a` sorts before word `b` by the bytes of their UTF-8 encodings.
pub open spec fn word_lt(a: Seq<char>, b: Seq<char>) -> bool {
    bytes_lt(encode_utf8(a), encode_utf8(b))
}

/// A dictionary that can serve as the digits of the codec: at least two
/// words, strictly ascending by bytes (so duplicate-free), none holding a
/// space, and few enough to count in 32 bits.
pub open spec fn dictionary_wf(d: Seq<Seq<char>>) -> bool {
    &&& 2 <= d.len() <= u32::MAX
    &&& forall|i: int, j: int| #![trigger d[i], d[j]] 0 <= i < j < d.len() ==> word_lt(d[i], d[j])
    &&& forall|i: int| 0 <= i < d.len() ==> !(#[trigger] d[i]).contains(' ')
}

pub proof fn lemma_bytes_lt_irreflexive(a: Seq<u8>)
    ensures
        !bytes_lt(a, a),
{
}

pub proof fn lemma_bytes_lt_transitive(a: Seq<u8>, b: Seq<u8>, c: Seq<u8>)
    requires
        bytes_lt(a, b),
        bytes_lt(b, c),
    ensures
        bytes_lt(a, c),
{
    let k1 = choose|k: int| bytes_lt_at(a, b, k);
    let k2 = choose|k: int| bytes_lt_at(b, c, k);
    let k = if k1 < k2 { k1 } else { k2 };
    assert(bytes_lt_at(a, c, k));
}

proof fn lemma_word_lt_transitive(a: Seq<char>, b: Seq<char>, c: Seq<char>)
    requires
        word_lt(a, b),
        word_lt(b, c),
    ensures
        word_lt(a, c),
{
    lemma_bytes_lt_transitive(encode_utf8(a), encode_utf8(b), encode_utf8(c));
}

/// In a well-formed dictionary a word sits at one position only.
proof fn lemma_word_unique(d: Seq<Seq<char>>, i: int, j: int)
    requires
        dictionary_wf(d),
        0 <= i < d.len(),
        0 <= j < d.len(),
        d[i] == d[j],
    ensures
        i == j,
{
    if i < j {
        assert(word_lt(d[i], d[j]));
        lemma_bytes_lt_irreflexive(encode_utf8(d[i]));
    } else if j < i {
        assert(word_lt(d[j], d[i]));
        lemma_bytes_lt_irreflexive(encode_utf8(d[j]));
    }
}

// ---------------------------------------------------------------------------
// Encoding
// ---------------------------------------------------------------------------

/// The number of words of a code in base `n` whose bound is `m`: the number
/// of base-`n` digits of `m`, which is `ceil(log_n(m + 1))`, and 1 for `m = 0`.
pub open spec fn word_count(n: nat, m: nat) -> nat
    decreases m,
    via word_count_decreases
{
    if n < 2 || m < n {
        1
    } else {
        1 + word_count(n, m / n)
    }
}

#[via_fn]
proof fn word_count_decreases(n: nat, m: nat) {
    if !(n < 2 || m < n) {
        lemma_div_decreases(m as int, n as int);
    }
}

/// Digit `k` of `state` in base `n`, least significant first.
pub open spec fn digit(n: nat, state: nat, k: nat) -> int {
    (state as int / pow(n as int, k)) % (n as int)
}

/// The first `p` digits of `state`, each written as its dictionary word.
pub open spec fn code_words(d: Seq<Seq<char>>, state: nat, p: nat) -> Seq<Seq<char>> {
    Seq::new(p, |k: int| d[digit(d.len(), state, k as nat)])
}

/// Words joined by single spaces.
pub open spec fn join_words(ws: Seq<Seq<char>>) -> Seq<char>
    decreases ws.len(),
{
    if ws.len() == 0 {
        Seq::empty()
    } else if ws.len() == 1 {
        ws[0]
    } else {
        join_words(ws.drop_last()) + seq![' '] + ws.last()
    }
}

/// The transport code of `state` under the bound `max_state`.
pub open spec fn encode(d: Seq<Seq<char>>, state: nat, max_state: nat) -> Seq<char> {
    join_words(code_words(d, state, word_count(d.len(), max_state)))
}

// ---------------------------------------------------------------------------
// Decoding
// ---------------------------------------------------------------------------

/// `s` cut at every space: `k` spaces give `k + 1` pieces, empty ones kept.
pub open spec fn split_spaces(s: Seq<char>) -> Seq<Seq<char>>
    decreases s.len(),
{
    if s.len() == 0 {
        seq![Seq::empty()]
    } else {
        let init = split_spaces(s.drop_last());
        if s.last() == ' ' {
            init.push(Seq::empty())
        } else {
            init.update(init.len() - 1, init.last().push(s.last()))
        }
    }
}

/// The position of word `w` in the dictionary.
pub open spec fn word_index(d: Seq<Seq<char>>, w: Seq<char>) -> int {
    choose|i: int| 0 <= i < d.len() && d[i] == w
}

/// One step of decoding: word `w` at position `p` after the value `prev`
/// of the words before it. The word fails if it is not in the dictionary,
/// or if the value no longer fits in 32 bits with it.
pub open spec fn decode_step(
    d: Seq<Seq<char>>,
    prev: Result<nat, Seq<char>>,
    w: Seq<char>,
    p: nat,
) -> Result<nat, Seq<char>> {
    match prev {
        Err(e) => Err(e),
        Ok(v) => {
            if !d.contains(w) {
                Err(w)
            } else {
                let next = v + word_index(d, w) * pow(d.len() as int, p);
                if next > u32::MAX {
                    Err(w)
                } else {
                    Ok(next as nat)
                }
            }
        },
    }
}

/// The value of a sequence of words, or the first word that fails.
pub open spec fn decode_words(d: Seq<Seq<char>>, ws: Seq<Seq<char>>) -> Result<nat, Seq<char>>
    decreases ws.len(),
{
    if ws.len() == 0 {
        Ok(0)
    } else {
        decode_step(d, decode_words(d, ws.drop_last()), ws.last(), (ws.len() - 1) as nat)
    }
}

/// The state that a transport code stands for, or the first word that fails.
pub open spec fn decode(d: Seq<Seq<char>>, code: Seq<char>) -> Result<nat, Seq<char>> {
    decode_words(d, split_spaces(code))
}

// ---------------------------------------------------------------------------
// Laws
// ---------------------------------------------------------------------------

/// The word count is the least `p >= 1` with `n^p > m`: enough base-`n`
/// digits for every state up to `m`, and no more than needed.
pub proof fn lemma_word_count(n: nat, m: nat)
    requires
        n >= 2,
    ensures
        word_count(n, m) >= 1,
        pow(n as int, word_count(n, m)) > m,
        word_count(n, m) == 1 || pow(n as int, (word_count(n, m) - 1) as nat) <= m,
    decreases m,
{
    let wc = word_count(n, m);
    if m < n {
        lemma_pow1(n as int);
    } else {
        let q = m / n;
        lemma_div_decreases(m as int, n as int);
        lemma_word_count(n, q);
        let wq = word_count(n, q);
        assert(wc == 1 + wq);
        lemma_fundamental_div_mod(m as int, n as int);
        lemma_mod_bound(m as int, n as int);
        let pq = pow(n as int, wq);
        assert(pow(n as int, wc) == n * pq) by {
            reveal(pow);
        }
        assert(n * pq > m) by (nonlinear_arith)
            requires
                pq > q,
                m == n * q + m % n,
                m % n < n,
                n >= 2,
        ;
        if wq == 1 {
            lemma_pow1(n as int);
        } else {
            let pr = pow(n as int, (wq - 1) as nat);
            assert(pow(n as int, wq) == n * pr) by {
                reveal(pow);
            }
            assert(n * pr <= m) by (nonlinear_arith)
                requires
                    pr <= q,
                    m == n * q + m % n,
                    m % n >= 0,
                    n >= 2,
            ;
        }
    }
}

/// Cutting `x` followed by a word without spaces extends the last piece of
/// `x` by that word.
proof fn lemma_split_append_word(x: Seq<char>, w: Seq<char>)
    requires
        !w.contains(' '),
    ensures
        split_spaces(x + w).len() == split_spaces(x).len(),
        split_spaces(x + w) == split_spaces(x).update(
            split_spaces(x).len() - 1,
            split_spaces(x).last() + w,
        ),
    decreases w.len(),
{
    lemma_split_nonempty(x);
    if w.len() == 0 {
        assert(x + w =~= x);
        assert(split_spaces(x).last() + w =~= split_spaces(x).last());
        assert(split_spaces(x).update(split_spaces(x).len() - 1, split_spaces(x).last())
            =~= split_spaces(x));
    } else {
        let w0 = w.drop_last();
        assert(!w0.contains(' ')) by {
            if w0.contains(' ') {
                let i = choose|i: int| 0 <= i < w0.len() && w0[i] == ' ';
                assert(w[i] == ' ');
            }
        }
        lemma_split_append_word(x, w0);
        assert((x + w).drop_last() =~= x + w0);
        assert((x + w).last() == w.last());
        assert(w.last() != ' ') by {
            if w.last() == ' ' {
                assert(w[w.len() - 1] == ' ');
            }
        }
        lemma_split_nonempty(x + w0);
        let sx = split_spaces(x);
        let init = split_spaces(x + w0);
        assert(init.last() == sx.last() + w0);
        assert(split_spaces(x + w) == init.update(init.len() - 1, init.last().push(w.last())));
        assert(sx.last() + w0 + seq![w.last()] =~= sx.last() + w);
        assert(init.last().push(w.last()) =~= sx.last() + w);
        assert(split_spaces(x + w) =~= split_spaces(x).update(
            split_spaces(x).len() - 1,
            split_spaces(x).last() + w,
        ));
    }
}

proof fn lemma_split_nonempty(s: Seq<char>)
    ensures
        split_spaces(s).len() >= 1,
    decreases s.len(),
{
    if s.len() > 0 {
        lemma_split_nonempty(s.drop_last());
    }
}

/// Cutting words joined by spaces gives the words back, when none of them
/// holds a space.
pub proof fn lemma_split_join(ws: Seq<Seq<char>>)
    requires
        ws.len() >= 1,
        forall|i: int| 0 <= i < ws.len() ==> !(#[trigger] ws[i]).contains(' '),
    ensures
        split_spaces(join_words(ws)) == ws,
    decreases ws.len(),
{
    if ws.len() == 1 {
        lemma_split_append_word(Seq::empty(), ws[0]);
        assert(Seq::<char>::empty() + ws[0] =~= ws[0]);
        assert(split_spaces(join_words(ws)) =~= ws);
    } else {
        let init = ws.drop_last();
        assert forall|i: int| 0 <= i < init.len() implies !(#[trigger] init[i]).contains(' ') by {
            assert(init[i] == ws[i]);
        }
        lemma_split_join(init);
        let x = join_words(init) + seq![' '];
        assert(x.drop_last() =~= join_words(init));
        assert(split_spaces(x) == split_spaces(join_words(init)).push(Seq::empty()));
        assert(!ws.last().contains(' ')) by {
            assert(ws.last() == ws[ws.len() - 1]);
        }
        lemma_split_append_word(x, ws.last());
        assert(Seq::<char>::empty() + ws.last() =~= ws.last());
        assert(split_spaces(join_words(ws)) =~= ws);
    }
}

/// Decoding the first `p` digit words of `state` gives `state mod n^p`.
proof fn lemma_decode_code_words(d: Seq<Seq<char>>, state: nat, p: nat)
    requires
        dictionary_wf(d),
        state <= u32::MAX,
    ensures
        decode_words(d, code_words(d, state, p)) == Ok::<nat, Seq<char>>(
            (state as int % pow(d.len() as int, p)) as nat,
        ),
    decreases p,
{
    let n = d.len() as int;
    lemma_pow_positive(n, p);
    if p == 0 {
        lemma_pow0(n);
        assert(code_words(d, state, p) =~= Seq::empty());
    } else {
        let q = (p - 1) as nat;
        lemma_decode_code_words(d, state, q);
        let ws = code_words(d, state, p);
        assert(ws.drop_last() =~= code_words(d, state, q));
        let pq = pow(n, q);
        lemma_pow_positive(n, q);
        let dg = digit(d.len(), state, q);
        lemma_div_pos_is_pos(state as int, pq);
        lemma_mod_bound(state as int / pq, n);
        let w = ws.last();
        assert(w == d[dg]);
        assert(d.contains(w));
        let wi = word_index(d, w);
        lemma_word_unique(d, wi, dg);
        assert(pow(n, p) == n * pq) by {
            reveal(pow);
        }
        lemma_mod_breakdown(state as int, pq, n);
        vstd::arithmetic::mul::lemma_mul_is_commutative(n, pq);
        lemma_mod_decreases(state, pow(n, p) as nat);
    }
}

/// Decoding the code of any state up to the bound gives the state back.
pub proof fn lemma_round_trip(d: Seq<Seq<char>>, state: nat, max_state: nat)
    requires
        dictionary_wf(d),
        state <= max_state <= u32::MAX,
    ensures
        decode(d, encode(d, state, max_state)) == Ok::<nat, Seq<char>>(state),
{
    let p = word_count(d.len(), max_state);
    let ws = code_words(d, state, p);
    lemma_word_count(d.len(), max_state);
    assert forall|i: int| 0 <= i < ws.len() implies !(#[trigger] ws[i]).contains(' ') by {
        let n = d.len() as int;
        lemma_pow_positive(n, i as nat);
        lemma_div_pos_is_pos(state as int, pow(n, i as nat));
        lemma_mod_bound(state as int / pow(n, i as nat), n);
        assert(ws[i] == d[digit(d.len(), state, i as nat)]);
    }
    lemma_split_join(ws);
    lemma_decode_code_words(d, state, p);
    lemma_small_mod(state, pow(d.len() as int, p) as nat);
}

/// A single word that is not in the dictionary is rejected, and the error
/// names that word.
pub proof fn lemma_unknown_word_rejected(d: Seq<Seq<char>>, w: Seq<char>)
    requires
        !w.contains(' '),
        !d.contains(w),
    ensures
        decode(d, w) == Err::<nat, Seq<char>>(w),
{
    let ws = seq![w];
    assert forall|i: int| 0 <= i < ws.len() implies !(#[trigger] ws[i]).contains(' ') by {}
    lemma_split_join(ws);
    assert(join_words(ws) == w);
    assert(ws.drop_last() =~= Seq::<Seq<char>>::empty());
    assert(decode_words(d, ws.drop_last()) == Ok::<nat, Seq<char>>(0));
    assert(ws.last() == w);
    assert(decode_words(d, ws) == Err::<nat, Seq<char>>(w));
}

/// A code has exactly `word_count(N, max_state)` words.
pub proof fn lemma_code_length(d: Seq<Seq<char>>, state: nat, max_state: nat)
    requires
        dictionary_wf(d),
    ensures
        split_spaces(encode(d, state, max_state)).len() == word_count(d.len(), max_state),
{
    let p = word_count(d.len(), max_state);
    let ws = code_words(d, state, p);
    lemma_word_count(d.len(), max_state);
    assert forall|i: int| 0 <= i < ws.len() implies !(#[trigger] ws[i]).contains(' ') by {
        let n = d.len() as int;
        lemma_pow_positive(n, i as nat);
        lemma_div_pos_is_pos(state as int, pow(n, i as nat));
        lemma_mod_bound(state as int / pow(n, i as nat), n);
        assert(ws[i] == d[digit(d.len(), state, i as nat)]);
    }
    lemma_split_join(ws);
}

/// Decoding fails from the first word that fails on, whatever follows.
proof fn lemma_decode_error_persists(d: Seq<Seq<char>>, ws: Seq<Seq<char>>, m: int, e: Seq<char>)
    requires
        0 <= m <= ws.len(),
        decode_words(d, ws.subrange(0, m)) == Err::<nat, Seq<char>>(e),
    ensures
        decode_words(d, ws) == Err::<nat, Seq<char>>(e),
    decreases ws.len(),
{
    if ws.len() == m {
        assert(ws.subrange(0, m) =~= ws);
    } else {
        assert(ws.drop_last().subrange(0, m) =~= ws.subrange(0, m));
        lemma_decode_error_persists(d, ws.drop_last(), m, e);
    }
}

/// Reading further into a string leaves the pieces already ended by a
/// space as they were.
proof fn lemma_split_keeps_ended_pieces(s: Seq<char>, i: int, j: int)
    requires
        0 <= i <= j <= s.len(),
    ensures
        split_spaces(s.subrange(0, j)).len() >= split_spaces(s.subrange(0, i)).len(),
        forall|k: int|
            0 <= k < split_spaces(s.subrange(0, i)).len() - 1 ==> split_spaces(s.subrange(0, j))[k]
                == split_spaces(s.subrange(0, i))[k],
    decreases j - i,
{
    if j > i {
        lemma_split_keeps_ended_pieces(s, i, j - 1);
        assert(s.subrange(0, j).drop_last() =~= s.subrange(0, j - 1));
        lemma_split_nonempty(s.subrange(0, j - 1));
    }
}

/// `n^p`, held at `2^32` once it reaches that.
spec fn capped_pow(n: nat, p: nat) -> int {
    if pow(n as int, p) > 0x1_0000_0000 {
        0x1_0000_0000
    } else {
        pow(n as int, p)
    }
}

pub open spec fn words_of(v: Seq<String>) -> Seq<Seq<char>> {
    v.map_values(|w: String| w@)
}

/// Orders two byte strings lexicographically.
fn compare_bytes(a: &[u8], b: &[u8]) -> (r: Ordering)
    ensures
        (r == Ordering::Less) == bytes_lt(a@, b@),
        (r == Ordering::Equal) == (a@ == b@),
        (r == Ordering::Greater) == bytes_lt(b@, a@),
{
    let mut i: usize = 0;
    while i < a.len() && i < b.len()
        invariant
            i <= a@.len(),
            i <= b@.len(),
            forall|j: int| 0 <= j < i ==> a@[j] == b@[j],
        decreases a.len() - i,
    {
        if a[i] != b[i] {
            if a[i] < b[i] {
                assert(bytes_lt_at(a@, b@, i as int));
                assert(a@[i as int] != b@[i as int]);
                return Ordering::Less;
            } else {
                assert(bytes_lt_at(b@, a@, i as int));
                assert(a@[i as int] != b@[i as int]);
                return Ordering::Greater;
            }
        }
        i += 1;
    }
    if a.len() < b.len() {
        assert(bytes_lt_at(a@, b@, i as int));
        assert(a@.len() != b@.len());
        Ordering::Less
    } else if b.len() < a.len() {
        assert(bytes_lt_at(b@, a@, i as int));
        assert(a@.len() != b@.len());
        Ordering::Greater
    } else {
        assert(a@ =~= b@);
        proof {
            lemma_bytes_lt_irreflexive(a@);
        }
        Ordering::Equal
    }
}

/// Tells whether `words` can serve as the dictionary of a codec.
pub fn check_dictionary(words: &Vec<String>) -> (r: bool)
    ensures
        r == dictionary_wf(words_of(words@)),
{
    let ghost d = words_of(words@);
    let n = words.len();
    if n < 2 || n > u32::MAX as usize {
        return false;
    }
    let mut i: usize = 0;
    while i < n
        invariant
            n == words@.len(),
            n == d.len(),
            d == words_of(words@),
            i <= n,
            forall|j: int| 0 <= j < i ==> !(#[trigger] d[j]).contains(' '),
        decreases n - i,
    {
        let w = words[i].as_str();
        assert(w@ == d[i as int]);
        let len = w.unicode_len();
        let mut c: usize = 0;
        while c < len
            invariant
                i < n,
                n == d.len(),
                d == words_of(words@),
                len == w@.len(),
                w@ == d[i as int],
                c <= len,
                forall|k: int| 0 <= k < c ==> w@[k] != ' ',
            decreases len - c,
        {
            if w.get_char(c) == ' ' {
                assert(d[i as int][c as int] == ' ');
                assert(d[i as int].contains(' '));
                return false;
            }
            c += 1;
        }
        assert(!d[i as int].contains(' '));
        i += 1;
    }
    let mut i: usize = 1;
    while i < n
        invariant
            n == words@.len(),
            n == d.len(),
            d == words_of(words@),
            1 <= i <= n,
            forall|j: int, k: int| #![trigger d[j], d[k]] 0 <= j < k < i ==> word_lt(d[j], d[k]),
        decreases n - i,
    {
        let prev = words[i - 1].as_str().as_bytes();
        let next = words[i].as_str().as_bytes();
        assert(prev@ == encode_utf8(d[i - 1]));
        assert(next@ == encode_utf8(d[i as int]));
        match compare_bytes(prev, next) {
            Ordering::Less => {},
            _ => {
                assert(!word_lt(d[i - 1], d[i as int]));
                return false;
            },
        }
        assert forall|j: int, k: int| #![trigger d[j], d[k]] 0 <= j < k < i + 1 implies word_lt(
            d[j],
            d[k],
        ) by {
            if k == i && j < i - 1 {
                lemma_word_lt_transitive(d[j], d[i - 1], d[k]);
            }
        }
        i += 1;
    }
    true
}

/// Writes states as transport codes and reads them back, over a fixed
/// dictionary whose size is the base.
pub struct TransportPresenter {
    dictionary: Vec<String>,
    dict_entries: u32,
}

impl View for TransportPresenter {
    type V = Seq<Seq<char>>;

    closed spec fn view(&self) -> Seq<Seq<char>> {
        words_of(self.dictionary@)
    }
}

impl TransportPresenter {
    pub closed spec fn wf(&self) -> bool {
        &&& dictionary_wf(self@)
        &&& self.dict_entries == self.dictionary@.len()
    }

    /// A well-formed presenter's words form a dictionary that the codec's
    /// laws apply to.
    pub proof fn lemma_wf(&self)
        requires
            self.wf(),
        ensures
            dictionary_wf(self@),
    {
    }

    /// A presenter over `dictionary`, which has `dict_entries` words.
    pub fn new(dictionary: Vec<String>, dict_entries: u32) -> (r: TransportPresenter)
        requires
            dictionary_wf(words_of(dictionary@)),
            dict_entries == dictionary@.len(),
        ensures
            r.wf(),
            r@ == words_of(dictionary@),
    {
        TransportPresenter { dictionary, dict_entries }
    }

    /// The number of words in a code whose bound is `max_state`.
    fn count_words(n: u32, max_state: u32) -> (r: usize)
        requires
            n >= 2,
        ensures
            r == word_count(n as nat, max_state as nat),
    {
        let mut parts: usize = 1;
        let mut rest: u32 = max_state;
        while rest >= n
            invariant
                n >= 2,
                1 <= parts <= max_state as int - rest as int + 1,
                word_count(n as nat, max_state as nat) == parts - 1 + word_count(
                    n as nat,
                    rest as nat,
                ),
            decreases rest,
        {
            proof {
                lemma_div_decreases(rest as int, n as int);
            }
            rest = rest / n;
            parts += 1;
        }
        parts
    }

    /// The index of `word` in the dictionary, by binary search.
    fn find_word(&self, word: &str) -> (r: Option<usize>)
        requires
            self.wf(),
        ensures
            match r {
                Some(i) => i < self@.len() && self@[i as int] == word@,
                None => !self@.contains(word@),
            },
    {
        let key = word.as_bytes();
        let mut lo: usize = 0;
        let mut hi: usize = self.dictionary.len();
        while lo < hi
            invariant
                self.wf(),
                lo <= hi <= self@.len(),
                key@ == encode_utf8(word@),
                forall|j: int| 0 <= j < lo ==> word_lt(#[trigger] self@[j], word@),
                forall|j: int| hi <= j < self@.len() ==> word_lt(word@, #[trigger] self@[j]),
            decreases hi - lo,
        {
            let mid = lo + (hi - lo) / 2;
            let entry = self.dictionary[mid].as_str().as_bytes();
            assert(entry@ == encode_utf8(self@[mid as int]));
            match compare_bytes(key, entry) {
                Ordering::Less => {
                    assert forall|j: int| mid <= j < self@.len() implies word_lt(
                        word@,
                        #[trigger] self@[j],
                    ) by {
                        if j > mid {
                            assert(word_lt(self@[mid as int], self@[j]));
                            lemma_word_lt_transitive(word@, self@[mid as int], self@[j]);
                        }
                    }
                    hi = mid;
                },
                Ordering::Greater => {
                    assert forall|j: int| 0 <= j < mid + 1 implies word_lt(
                        #[trigger] self@[j],
                        word@,
                    ) by {
                        if j < mid {
                            assert(word_lt(self@[j], self@[mid as int]));
                            lemma_word_lt_transitive(self@[j], self@[mid as int], word@);
                        }
                    }
                    lo = mid + 1;
                },
                Ordering::Equal => {
                    assert(decode_utf8(encode_utf8(word@)) == word@);
                    assert(decode_utf8(encode_utf8(self@[mid as int])) == self@[mid as int]);
                    return Some(mid);
                },
            }
        }
        assert forall|j: int| 0 <= j < self@.len() implies self@[j] != word@ by {
            lemma_bytes_lt_irreflexive(encode_utf8(word@));
        }
        None
    }

    /// Writes `t`'s state as a transport code: one word per base-N digit,
    /// least significant first, as many words as the bound needs.
    pub fn present<T: Transport>(&self, t: &T) -> (r: String)
        requires
            self.wf(),
        ensures
            r@ == encode(self@, t.spec_state() as nat, t.spec_max_state() as nat),
    {
        let n = self.dict_entries;
        let state = t.state();
        let parts = Self::count_words(n, t.max_state());
        let ghost d = self@;
        let mut out = String::new();
        let mut rem: u32 = state;
        let mut k: usize = 0;
        proof {
            reveal_strlit(" ");
            lemma_pow0(n as int);
            assert(code_words(d, state as nat, 0) =~= Seq::<Seq<char>>::empty());
        }
        while k < parts
            invariant
                self.wf(),
                d == self@,
                n == d.len(),
                k <= parts,
                rem as int == state as int / pow(n as int, k as nat),
                out@ == join_words(code_words(d, state as nat, k as nat)),
                " "@ == seq![' '],
            decreases parts - k,
        {
            let dg = rem % n;
            let word = self.dictionary[dg as usize].as_str();
            proof {
                lemma_pow_positive(n as int, k as nat);
                let cw = code_words(d, state as nat, (k + 1) as nat);
                assert(cw.drop_last() =~= code_words(d, state as nat, k as nat));
                assert(cw.last() == word@);
            }
            if k > 0 {
                out.append(" ");
            }
            out.append(word);
            proof {
                let pk = pow(n as int, k as nat);
                lemma_div_denominator(state as int, pk, n as int);
                assert(pow(n as int, (k + 1) as nat) == n * pk) by {
                    reveal(pow);
                }
                vstd::arithmetic::mul::lemma_mul_is_commutative(n as int, pk);
            }
            rem = rem / n;
            k += 1;
        }
        out
    }

    /// Adds word `word` at position `position` to the value of the words
    /// before it; `weight` is `N^position`, held at `2^32`.
    fn add_word(&self, word: &str, position: usize, value: u32, weight: u64) -> (r: Result<
        (u32, u64),
        FetchError,
    >)
        requires
            self.wf(),
            weight == capped_pow(self@.len(), position as nat),
        ensures
            match decode_step(self@, Ok(value as nat), word@, position as nat) {
                Ok(v) => r matches Ok((nv, nw)) && nv == v && nw == capped_pow(
                    self@.len(),
                    (position + 1) as nat,
                ),
                Err(w) => r matches Err(FetchError::InvalidTransport(t)) && t@ == w,
            },
    {
        let ghost d = self@;
        let ghost n = d.len();
        let idx = match self.find_word(word) {
            Some(i) => i,
            None => {
                return Err(FetchError::InvalidTransport(word.to_owned()));
            },
        };
        let ghost p = pow(n as int, position as nat);
        proof {
            assert(d.contains(word@));
            lemma_word_unique(d, word_index(d, word@), idx as int);
            lemma_pow_positive(n as int, position as nat);
            assert(idx as int * weight <= 0xffff_ffff * 0x1_0000_0000) by (nonlinear_arith)
                requires
                    idx < 0x1_0000_0000,
                    weight <= 0x1_0000_0000,
            ;
        }
        let product: u64 = (idx as u64) * weight;
        proof {
            if p > 0x1_0000_0000 && idx > 0 {
                assert(idx as int * p >= p) by (nonlinear_arith)
                    requires
                        idx >= 1,
                        p > 0,
                ;
                assert(product >= weight) by (nonlinear_arith)
                    requires
                        product == idx as int * weight,
                        idx >= 1,
                        weight >= 0,
                ;
            }
        }
        if product > (u32::MAX - value) as u64 {
            proof {
                if p <= 0x1_0000_0000 {
                    assert(weight == p);
                } else {
                    assert(idx > 0);
                    assert(idx as int * p >= p) by (nonlinear_arith)
                        requires
                            idx >= 1,
                            p > 0,
                    ;
                }
                assert(value + idx * p > u32::MAX);
            }
            return Err(FetchError::InvalidTransport(word.to_owned()));
        }
        let next = value + product as u32;
        proof {
            if p <= 0x1_0000_0000 {
                assert(weight == p);
                assert(next == value + idx * p);
            } else {
                assert(idx == 0);
                assert(idx * p == 0) by (nonlinear_arith)
                    requires
                        idx == 0,
                ;
                assert(next == value + idx * p);
            }
            assert(decode_step(d, Ok(value as nat), word@, position as nat) == Ok::<
                nat,
                Seq<char>,
            >(next as nat));
        }
        let next_weight: u64 = if weight > u32::MAX as u64 {
            proof {
                assert(pow(n as int, (position + 1) as nat) == n * p) by {
                    reveal(pow);
                }
                assert(n * p >= 2 * p) by (nonlinear_arith)
                    requires
                        n >= 2,
                        p >= 0,
                ;
            }
            weight
        } else {
            proof {
                assert(pow(n as int, (position + 1) as nat) == n * p) by {
                    reveal(pow);
                }
                assert(weight * n <= 0xffff_ffff * 0xffff_ffff) by (nonlinear_arith)
                    requires
                        weight <= 0xffff_ffff,
                        n <= 0xffff_ffff,
                ;
                vstd::arithmetic::mul::lemma_mul_is_commutative(n as int, p);
            }
            let grown = weight * (self.dict_entries as u64);
            if grown > 0x1_0000_0000 {
                0x1_0000_0000
            } else {
                grown
            }
        };
        Ok((next, next_weight))
    }

    /// Reads a transport code back into the state it stands for. Fails on
    /// the first word that is not in the dictionary, or from which on the
    /// value would not fit in 32 bits.
    pub fn present_inv(&self, s: String) -> (r: Result<ClientTransport, FetchError>)
        requires
            self.wf(),
        ensures
            match r {
                Ok(t) => decode(self@, s@) == Ok::<nat, Seq<char>>(t.spec_state() as nat),
                Err(e) => e matches FetchError::InvalidTransport(w) && decode(self@, s@) == Err::<
                    nat,
                    Seq<char>,
                >(w@),
            },
    {
        let ghost d = self@;
        let text = s.as_str();
        let len = text.unicode_len();
        let mut value: u32 = 0;
        let mut weight: u64 = 1;
        let mut position: usize = 0;
        let mut start: usize = 0;
        let mut i: usize = 0;
        let ghost mut done: Seq<Seq<char>> = Seq::empty();
        proof {
            lemma_pow0(d.len() as int);
            assert(s@.subrange(0, 0) =~= Seq::<char>::empty());
        }
        while i < len
            invariant
                self.wf(),
                d == self@,
                text@ == s@,
                len == s@.len(),
                start <= i <= len,
                position == done.len(),
                position <= i,
                split_spaces(s@.subrange(0, i as int)) == done.push(
                    s@.subrange(start as int, i as int),
                ),
                decode_words(d, done) == Ok::<nat, Seq<char>>(value as nat),
                weight == capped_pow(d.len(), position as nat),
            decreases len - i,
        {
            let c = text.get_char(i);
            assert(s@.subrange(0, i + 1).drop_last() =~= s@.subrange(0, i as int));
            assert(s@.subrange(0, i + 1).last() == c);
            if c == ' ' {
                let word = text.substring_char(start, i);
                let ghost ended = done.push(word@);
                assert(split_spaces(s@.subrange(0, i + 1)) == ended.push(Seq::empty()));
                assert(ended.drop_last() =~= done);
                match self.add_word(word, position, value, weight) {
                    Ok((v, w)) => {
                        value = v;
                        weight = w;
                    },
                    Err(e) => {
                        proof {
                            lemma_split_keeps_ended_pieces(s@, i + 1, len as int);
                            assert(s@.subrange(0, len as int) =~= s@);
                            let all = split_spaces(s@);
                            assert(all.subrange(0, ended.len() as int) =~= ended);
                            lemma_decode_error_persists(d, all, ended.len() as int, word@);
                        }
                        return Err(e);
                    },
                }
                proof {
                    done = ended;
                    assert(s@.subrange(i + 1, i + 1) =~= Seq::<char>::empty());
                }
                position += 1;
                start = i + 1;
            } else {
                assert(s@.subrange(start as int, i as int).push(c) =~= s@.subrange(
                    start as int,
                    i + 1,
                ));
            }
            i += 1;
        }
        let word = text.substring_char(start, len);
        assert(s@.subrange(0, len as int) =~= s@);
        assert(done.push(word@).drop_last() =~= done);
        match self.add_word(word, position, value, weight) {
            Ok((v, _)) => Ok(ClientTransport::new(v)),
            Err(e) => Err(e),
        }
    }
}

} // verus!
