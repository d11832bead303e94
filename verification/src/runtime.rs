//! The guest runtime's hashing: a salted hash, a sponge over it, and the
//! bytes that the sponge gives.
//!
//! The host's half of a hash is an exchange of 32 bytes, in which it adds its
//! salt. The functions here take that exchange as a callback; on a guest it is
//! the environment call.
use vstd::prelude::*;

verus! {

/// The SHA-256 digest of some bytes.
pub uninterp spec fn sha256_of(bytes: Seq<u8>) -> Seq<u8>;

/// Hash 32 bytes with `sha2::Sha256::digest`. The digest depends on the bytes
/// alone; the contract gives it a name.
#[verifier::external_body]
pub(crate) fn sha256(v: &[u8; 32]) -> (r: [u8; 32])
    ensures
        r@ == sha256_of(v@),
{
    <sha2::Sha256 as sha2::Digest>::digest(v).into()
}

/// The exchange callback may answer `reply` to `sent`.
pub open spec fn exchanged<F: Fn([u8; 32]) -> [u8; 32]>(
    exchange: F,
    sent: Seq<u8>,
    reply: Seq<u8>,
) -> bool {
    exists|s: [u8; 32], r: [u8; 32]| #[trigger]
        call_ensures(exchange, (s,), r) && s@ == sent && r@ == reply
}

/// The exchange callback takes every 32 bytes.
pub open spec fn exchanges<F: Fn([u8; 32]) -> [u8; 32]>(exchange: F) -> bool {
    forall|s: [u8; 32]| #[trigger] call_requires(exchange, (s,))
}

/// Exchange a digest with the host.
pub fn exchange_digest<F: Fn([u8; 32]) -> [u8; 32]>(digest: [u8; 32], exchange: &F) -> (r: [u8;
    32])
    requires
        exchanges(*exchange),
    ensures
        exchanged(*exchange, digest@, r@),
{
    exchange(digest)
}

/// Hash a value, with host-provided salts.
///
/// On Armv8-M the eight little-endian words of the digest go through the
/// `SVC #0` hash convention (`r0 = 0`, payload/result in `r1` through `r8`).
/// On RV32 the payload moves through eight 32-bit registers starting at `a1`;
/// on RV64 the same 32 bytes move through four 64-bit registers.
pub fn hash<F: Fn([u8; 32]) -> [u8; 32]>(v: [u8; 32], exchange: &F) -> (r: [u8; 32])
    requires
        exchanges(*exchange),
    ensures
        exchanged(*exchange, sha256_of(v@), r@),
{
    let digest = sha256(&v);
    exchange_digest(digest, exchange)
}

/// A sponge state with a chunk of at most 16 bytes laid over its first half,
/// padded with zeros.
pub open spec fn absorbed(state: Seq<u8>, chunk: Seq<u8>) -> Seq<u8> {
    Seq::new(
        32,
        |i: int|
            if i < chunk.len() {
                chunk[i]
            } else if i < 16 {
                0u8
            } else {
                state[i]
            },
    )
}

/// Chunk `k` of a message cut into pieces of 16 bytes.
pub open spec fn chunk(x: Seq<u8>, k: int) -> Seq<u8> {
    x.subrange(
        16 * k,
        if 16 * k + 16 <= x.len() {
            16 * k + 16
        } else {
            x.len() as int
        },
    )
}

/// How many chunks a message has.
pub open spec fn chunks(x: Seq<u8>) -> int {
    (x.len() as int + 15) / 16
}

/// The sponge state before hash `k`, given the replies to the hashes before.
pub open spec fn sponge(x: Seq<u8>, replies: Seq<Seq<u8>>, k: int) -> Seq<u8> {
    if k == 0 {
        Seq::new(32, |i: int| 0xffu8)
    } else if k <= chunks(x) {
        absorbed(replies[k - 1], chunk(x, k - 1))
    } else {
        replies[k - 1]
    }
}

/// The replies to the first hashes of a sponge.
pub open spec fn answered<F: Fn([u8; 32]) -> [u8; 32]>(
    exchange: F,
    x: Seq<u8>,
    replies: Seq<Seq<u8>>,
) -> bool {
    forall|k: int|
        0 <= k < replies.len() ==> exchanged(exchange, sha256_of(sponge(x, replies, k)),
            #[trigger] replies[k],
        )
}

/// Lay a chunk over the first half of a sponge state.
fn absorb(state: &mut [u8; 32], x: &[u8], start: usize)
    requires
        start < x@.len(),
    ensures
        final(state)@ == absorbed(
            old(state)@,
            x@.subrange(
                start as int,
                if start + 16 <= x@.len() {
                    start + 16
                } else {
                    x@.len() as int
                },
            ),
        ),
{
    let len: usize = x.len();
    let count: usize = if len - start >= 16 {
        16
    } else {
        len - start
    };
    let ghost piece = x@.subrange(start as int, start + count);
    let mut i: usize = 0;
    while i < 16
        invariant
            i <= 16,
            count <= 16,
            start + count <= x@.len(),
            len == x@.len(),
            piece == x@.subrange(start as int, start + count),
            forall|j: int|
                0 <= j < 32 ==> (#[trigger] state@[j]) == if j < i {
                    if j < count {
                        piece[j]
                    } else {
                        0u8
                    }
                } else {
                    old(state)@[j]
                },
        decreases 16 - i,
    {
        if i < count {
            state[i] = x[start + i];
        } else {
            state[i] = 0;
        }
        i = i + 1;
    }
    assert(state@ =~= absorbed(old(state)@, piece));
}

/// The bytes that a sponge gives.
pub struct Xof {
    state: [u8; 32],
    s: [u8; 16],
    i: u8,
}

impl Clone for Xof {
    /// The same stream, at the same place.
    fn clone(&self) -> (r: Self)
        ensures
            r == *self,
    {
        Xof { state: self.state, s: self.s, i: self.i }
    }
}

impl Xof {
    /// The next sponge state, after the bytes that are buffered.
    pub closed spec fn pending(&self) -> Seq<u8> {
        self.state@
    }

    /// The bytes that are buffered.
    pub closed spec fn buffered(&self) -> Seq<u8> {
        self.s@.skip(self.i as int)
    }

    /// One byte is buffered, and no more than 16.
    pub closed spec fn wf(&self) -> bool {
        self.i < 16
    }

    /// The next byte. When it was the last buffered one, the next sixteen come
    /// from the pending state, and another hash replaces that.
    pub fn next_byte<F: Fn([u8; 32]) -> [u8; 32]>(&mut self, exchange: &F) -> (r: u8)
        requires
            old(self).wf(),
            exchanges(*exchange),
        ensures
            final(self).wf(),
            1 <= old(self).buffered().len() <= 16,
            r == old(self).buffered()[0],
            old(self).buffered().len() > 1 ==> {
                &&& final(self).buffered() == old(self).buffered().skip(1)
                &&& final(self).pending() == old(self).pending()
            },
            old(self).buffered().len() == 1 ==> {
                &&& final(self).buffered() == old(self).pending().take(16)
                &&& exchanged(*exchange, sha256_of(old(self).pending()), final(self).pending())
            },
    {
        let r: u8 = self.s[self.i as usize];
        self.i = self.i + 1;
        if self.i == 16 {
            self.s = first_half(&self.state);
            self.state = hash(self.state, exchange);
            self.i = 0;
            assert(self.buffered() =~= old(self).pending().take(16));
        } else {
            assert(self.buffered() =~= old(self).buffered().skip(1));
        }
        r
    }

    /// Fill a buffer with the next bytes.
    pub fn fill_bytes<F: Fn([u8; 32]) -> [u8; 32]>(&mut self, dst: &mut [u8], exchange: &F)
        requires
            old(self).wf(),
            exchanges(*exchange),
        ensures
            final(self).wf(),
            final(dst)@.len() == old(dst)@.len(),
            exists|states: Seq<Xof>| #[trigger]
                walked(*exchange, states, *old(self), *final(self), final(dst)@),
    {
        let ghost mut states: Seq<Xof> = seq![*self];
        let total: usize = dst.len();
        let mut i: usize = 0;
        while i < total
            invariant
                self.wf(),
                exchanges(*exchange),
                total == dst@.len() == old(dst)@.len(),
                i <= total,
                states.len() == i + 1,
                states[0] == *old(self),
                states.last() == *self,
                forall|k: int| 0 <= k < states.len() ==> (#[trigger] states[k]).wf(),
                forall|k: int|
                    0 <= k < i ==> steps_to(*exchange, #[trigger] states[k], states[k + 1], dst@[k]),
            decreases total - i,
        {
            let byte: u8 = self.next_byte(exchange);
            dst[i] = byte;
            proof {
                states = states.push(*self);
            }
            i = i + 1;
        }
        assert(walked(*exchange, states, *old(self), *self, dst@));
    }
}

/// One byte taken from a stream.
pub open spec fn steps_to<F: Fn([u8; 32]) -> [u8; 32]>(
    exchange: F,
    before: Xof,
    after: Xof,
    byte: u8,
) -> bool {
    &&& byte == before.buffered()[0]
    &&& before.buffered().len() > 1 ==> {
        &&& after.buffered() == before.buffered().skip(1)
        &&& after.pending() == before.pending()
    }
    &&& before.buffered().len() == 1 ==> {
        &&& after.buffered() == before.pending().take(16)
        &&& exchanged(exchange, sha256_of(before.pending()), after.pending())
    }
}

/// Several bytes taken from a stream, one after the other.
pub open spec fn walked<F: Fn([u8; 32]) -> [u8; 32]>(
    exchange: F,
    states: Seq<Xof>,
    before: Xof,
    after: Xof,
    bytes: Seq<u8>,
) -> bool {
    &&& states.len() == bytes.len() + 1
    &&& states[0] == before
    &&& states.last() == after
    &&& forall|k: int|
        0 <= k < bytes.len() ==> steps_to(exchange, #[trigger] states[k], states[k + 1], bytes[k])
}

/// Where a stream of whole blocks stands after `n` bytes.
proof fn stream_stands<F: Fn([u8; 32]) -> [u8; 32]>(
    exchange: F,
    states: Seq<Xof>,
    before: Xof,
    after: Xof,
    bytes: Seq<u8>,
    n: int,
)
    requires
        walked(exchange, states, before, after, bytes),
        before.buffered().len() == 16,
        0 <= n <= bytes.len(),
    ensures
        states[n].pending() == states[16 * (n / 16)].pending(),
        states[n].buffered() == stream_block(states, before, n / 16).skip(n % 16),
        stream_block(states, before, n / 16).len() == 16,
    decreases n,
{
    if n == 0 {
        assert(before.buffered() =~= stream_block(states, before, 0).skip(0));
    } else {
        stream_stands(exchange, states, before, after, bytes, n - 1);
        let k = (n - 1) / 16;
        let block = stream_block(states, before, k);
        assert(steps_to(exchange, states[n - 1], states[n], bytes[n - 1]));
        if n % 16 == 0 {
            assert(states[n - 1].buffered().len() == 1);
            assert(n / 16 == k + 1);
            assert(16 * (n / 16) == n);
            assert(states[n].buffered() == states[16 * k].pending().take(16));
            assert(states[n].buffered() =~= stream_block(states, before, k + 1).skip(0));
        } else {
            assert(n / 16 == k);
            assert(states[n - 1].buffered().len() > 1);
            assert(block.skip((n - 1) % 16).skip(1) =~= block.skip(n % 16));
        }
    }
}

/// Block `k` of a stream: what was buffered, and after that the first half of
/// one pending state after the other.
pub open spec fn stream_block(states: Seq<Xof>, before: Xof, k: int) -> Seq<u8> {
    if k == 0 {
        before.buffered()
    } else {
        states[16 * (k - 1)].pending().take(16)
    }
}

/// Byte `n` of a sponge's stream is byte `n % 16` of its block `n / 16`, and
/// every block but the first is half of the reply to the hash of the state
/// before.
pub proof fn stream_byte<F: Fn([u8; 32]) -> [u8; 32]>(
    exchange: F,
    states: Seq<Xof>,
    before: Xof,
    after: Xof,
    bytes: Seq<u8>,
    n: int,
)
    requires
        walked(exchange, states, before, after, bytes),
        before.buffered().len() == 16,
        0 <= n < bytes.len(),
    ensures
        bytes[n] == stream_block(states, before, n / 16)[n % 16],
        n / 16 > 0 ==> exchanged(
            exchange,
            sha256_of(states[16 * (n / 16 - 1)].pending()),
            states[16 * (n / 16)].pending(),
        ),
{
    stream_stands(exchange, states, before, after, bytes, n);
    assert(steps_to(exchange, states[n], states[n + 1], bytes[n]));
    let k = n / 16;
    if k > 0 {
        let last = 16 * k - 1;
        stream_stands(exchange, states, before, after, bytes, last);
        assert(last / 16 == k - 1);
        assert(last % 16 == 15);
        assert(steps_to(exchange, states[last], states[last + 1], bytes[last]));
    }
}

/// Every digest has one reply.
pub open spec fn settled<F: Fn([u8; 32]) -> [u8; 32]>(exchange: F) -> bool {
    forall|digest: Seq<u8>, a: Seq<u8>, b: Seq<u8>| #[trigger]
        exchanged(exchange, digest, a) && #[trigger] exchanged(exchange, digest, b) ==> a == b
}

/// A copy of a stream goes on as the stream does, wherever every digest has
/// one reply.
pub proof fn copies_continue_alike<F: Fn([u8; 32]) -> [u8; 32]>(
    exchange: F,
    states: Seq<Xof>,
    bytes: Seq<u8>,
    copies: Seq<Xof>,
    copied: Seq<u8>,
    n: int,
)
    requires
        settled(exchange),
        walked(exchange, states, states[0], states.last(), bytes),
        walked(exchange, copies, copies[0], copies.last(), copied),
        cloned(states[0], copies[0]),
        states[0].wf(),
        0 <= n <= bytes.len(),
        n <= copied.len(),
    ensures
        bytes.take(n) == copied.take(n),
        states[n].buffered() == copies[n].buffered(),
        states[n].pending() == copies[n].pending(),
        1 <= states[n].buffered().len() <= 16,
        states[n].pending().len() == 32,
    decreases n,
{
    if n == 0 {
        assert(copies[0] == states[0]);
        assert(bytes.take(0) =~= copied.take(0));
    } else {
        copies_continue_alike(exchange, states, bytes, copies, copied, n - 1);
        assert(steps_to(exchange, states[n - 1], states[n], bytes[n - 1]));
        assert(steps_to(exchange, copies[n - 1], copies[n], copied[n - 1]));
        assert(bytes.take(n) =~= bytes.take(n - 1).push(bytes[n - 1]));
        assert(copied.take(n) =~= copied.take(n - 1).push(copied[n - 1]));
    }
}

/// The first sixteen bytes of a state.
fn first_half(state: &[u8; 32]) -> (r: [u8; 16])
    ensures
        r@ == state@.take(16),
{
    let mut r: [u8; 16] = [0; 16];
    let mut i: usize = 0;
    while i < 16
        invariant
            i <= 16,
            forall|j: int| 0 <= j < i ==> r@[j] == state@[j],
        decreases 16 - i,
    {
        r[i] = state[i];
        i = i + 1;
    }
    assert(r@ =~= state@.take(16));
    r
}

/// Sponge construction/XOF of [`hash`].
pub fn hash_many<F: Fn([u8; 32]) -> [u8; 32]>(x: &[u8], exchange: &F) -> (r: Xof)
    requires
        exchanges(*exchange),
    ensures
        r.wf(),
        r.buffered().len() == 16,
        exists|replies: Seq<Seq<u8>>| #[trigger]
            answered(*exchange, x@, replies) && replies.len() == chunks(x@) + 2 && r.buffered()
                == replies[chunks(x@)].take(16) && r.pending() == replies[chunks(x@) + 1],
{
    let mut state: [u8; 32] = [0xff; 32];
    let ghost mut replies: Seq<Seq<u8>> = Seq::empty();
    let len: usize = x.len();
    let mut at: usize = 0;
    let mut k: usize = 0;
    assert(state@ =~= sponge(x@, replies, 0));
    while at < len
        invariant
            exchanges(*exchange),
            len == x@.len(),
            at == 16 * k || (at == len && k == chunks(x@)),
            at <= len,
            k <= chunks(x@),
            at < len ==> k < chunks(x@),
            at == len ==> k == chunks(x@),
            replies.len() == k,
            forall|j: int| 0 <= j < k ==> (#[trigger] replies[j]).len() == 32,
            answered(*exchange, x@, replies),
            state@ == sponge(x@, replies, k as int),
        decreases len - at,
    {
        let reply = hash(state, exchange);
        proof {
            let before = replies;
            replies = replies.push(reply@);
            assert forall|j: int| 0 <= j < replies.len() implies exchanged(
                *exchange,
                sha256_of(sponge(x@, replies, j)),
                #[trigger] replies[j],
            ) by {
                assert(sponge(x@, replies, j) == sponge(x@, before, j));
                if j < k {
                    assert(replies[j] == before[j]);
                }
            }
        }
        state = reply;
        absorb(&mut state, x, at);
        at = if len - at >= 16 {
            at + 16
        } else {
            len
        };
        k = k + 1;
    }
    let ghost n = chunks(x@);
    let first = hash(state, exchange);
    let ghost middle = replies.push(first@);
    proof {
        assert(k == n);
        assert forall|j: int| 0 <= j < middle.len() implies exchanged(
            *exchange,
            sha256_of(sponge(x@, middle, j)),
            #[trigger] middle[j],
        ) by {
            assert(sponge(x@, middle, j) == sponge(x@, replies, j));
            if j < n {
                assert(middle[j] == replies[j]);
            }
        }
    }
    let second = hash(first, exchange);
    let ghost all = middle.push(second@);
    proof {
        assert forall|j: int| 0 <= j < all.len() implies exchanged(
            *exchange,
            sha256_of(sponge(x@, all, j)),
            #[trigger] all[j],
        ) by {
            if j <= n {
                assert(sponge(x@, all, j) == sponge(x@, middle, j));
                assert(all[j] == middle[j]);
            } else {
                assert(sponge(x@, all, j) == first@);
            }
        }
        assert(answered(*exchange, x@, all));
    }
    let r = Xof { state: second, s: first_half(&first), i: 0 };
    assert(r.buffered() =~= all[n].take(16));
    r
}

/// The little-endian words of a payload, for eight 32-bit registers.
pub fn payload_words(payload: &[u8; 32]) -> (r: [u32; 8])
    ensures
        forall|k: int|
            0 <= k < 8 ==> (#[trigger] r@[k]) == crate::memory::le_num(
                payload@.subrange(4 * k, 4 * k + 4),
            ),
{
    let mut r: [u32; 8] = [0; 8];
    let mut k: usize = 0;
    while k < 8
        invariant
            k <= 8,
            forall|j: int|
                0 <= j < k ==> (#[trigger] r@[j]) == crate::memory::le_num(
                    payload@.subrange(4 * j, 4 * j + 4),
                ),
        decreases 8 - k,
    {
        let number: u64 = crate::memory::number_from_bytes(payload, 4 * k, 4);
        proof {
            crate::memory::le_num_bound(payload@.subrange(4 * k, 4 * k + 4));
            crate::memory::byte_powers();
        }
        r[k] = number as u32;
        k = k + 1;
    }
    r
}

/// The bytes of eight little-endian words.
pub fn payload_bytes(words: &[u32; 8]) -> (r: [u8; 32])
    ensures
        forall|k: int|
            0 <= k < 8 ==> r@.subrange(4 * k, 4 * k + 4) == crate::memory::le_bytes(
                #[trigger] words@[k],
            ),
{
    let mut r: [u8; 32] = [0; 32];
    let mut k: usize = 0;
    while k < 8
        invariant
            k <= 8,
            forall|j: int, b: int|
                0 <= j < k && 0 <= b < 4 ==> r@[4 * j + b] == #[trigger] crate::memory::le_bytes(
                    words@[j],
                )[b],
        decreases 8 - k,
    {
        let bytes = crate::memory::bytes_from_word(words[k]);
        r[4 * k] = bytes[0];
        r[4 * k + 1] = bytes[1];
        r[4 * k + 2] = bytes[2];
        r[4 * k + 3] = bytes[3];
        k = k + 1;
    }
    proof {
        assert forall|j: int| 0 <= j < 8 implies r@.subrange(4 * j, 4 * j + 4)
            == crate::memory::le_bytes(#[trigger] words@[j]) by {
            let piece = crate::memory::le_bytes(words@[j]);
            assert forall|b: int| 0 <= b < 4 implies r@.subrange(4 * j, 4 * j + 4)[b] == piece[b] by {
                assert(r@[4 * j + b] == piece[b]);
            }
            assert(r@.subrange(4 * j, 4 * j + 4) =~= piece);
        }
    }
    r
}

/// The bytes of the word that four bytes spell are the bytes.
proof fn piece_survives(piece: Seq<u8>, word: u32)
    requires
        piece.len() == 4,
        word == crate::memory::le_num(piece),
    ensures
        crate::memory::le_bytes(word) == piece,
{
    crate::memory::le_num_4(piece);
    let a = piece[0] as int;
    let b = piece[1] as int;
    let c = piece[2] as int;
    let d = piece[3] as int;
    let v = word as int;
    assert(v == a + 256 * b + 65536 * c + 16777216 * d);
    assert(v % 256 == a);
    assert(v / 256 == b + 256 * c + 65536 * d);
    assert((v / 256) % 256 == b);
    assert(v / 65536 == c + 256 * d);
    assert((v / 65536) % 256 == c);
    assert(v / 16777216 == d);
    assert(crate::memory::le_bytes(word) =~= piece);
}

/// A payload cut into words and put together again is the payload.
pub proof fn payload_survives_words(payload: Seq<u8>, words: Seq<u32>, bytes: Seq<u8>)
    requires
        payload.len() == 32,
        words.len() == 8,
        bytes.len() == 32,
        forall|k: int|
            0 <= k < 8 ==> (#[trigger] words[k]) == crate::memory::le_num(
                payload.subrange(4 * k, 4 * k + 4),
            ),
        forall|k: int|
            0 <= k < 8 ==> bytes.subrange(4 * k, 4 * k + 4) == crate::memory::le_bytes(
                #[trigger] words[k],
            ),
    ensures
        bytes == payload,
{
    assert forall|i: int| 0 <= i < 32 implies bytes[i] == payload[i] by {
        let k = i / 4;
        let b = i % 4;
        let piece = payload.subrange(4 * k, 4 * k + 4);
        assert(words[k] == crate::memory::le_num(piece));
        piece_survives(piece, words[k]);
        assert(bytes.subrange(4 * k, 4 * k + 4)[b] == bytes[i]);
        assert(piece[b] == payload[i]);
    }
    assert(bytes =~= payload);
}

} // verus!
