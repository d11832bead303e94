//! The workload of the bare-metal self-tests and what they report.
use vstd::prelude::*;

verus! {

/// A word rotated right by `n` bits.
#[verifier::opaque]
pub open spec fn rotated(x: u32, n: u32) -> u32 {
    (x >> n) | (x << ((32 - n) as u32))
}

fn rotate_right(x: u32, n: u32) -> (r: u32)
    requires
        0 < n < 32,
    ensures
        r == rotated(x, n),
{
    reveal(rotated);
    (x >> n) | (x << (32 - n))
}

/// The bits of `y` where `x` is set, those of `z` elsewhere.
pub fn choice(x: u32, y: u32, z: u32) -> (r: u32)
    ensures
        r == (x & y) ^ (!x & z),
{
    (x & y) ^ (!x & z)
}

/// The bits that two or three of the words have.
pub fn majority(x: u32, y: u32, z: u32) -> (r: u32)
    ensures
        r == (x & y) ^ (x & z) ^ (y & z),
{
    (x & y) ^ (x & z) ^ (y & z)
}

pub fn big_sigma_0(x: u32) -> (r: u32)
    ensures
        r == rotated(x, 2) ^ rotated(x, 13) ^ rotated(x, 22),
{
    rotate_right(x, 2) ^ rotate_right(x, 13) ^ rotate_right(x, 22)
}

pub fn big_sigma_1(x: u32) -> (r: u32)
    ensures
        r == rotated(x, 6) ^ rotated(x, 11) ^ rotated(x, 25),
{
    rotate_right(x, 6) ^ rotate_right(x, 11) ^ rotate_right(x, 25)
}

pub fn small_sigma_0(x: u32) -> (r: u32)
    ensures
        r == rotated(x, 7) ^ rotated(x, 18) ^ (x >> 3),
{
    rotate_right(x, 7) ^ rotate_right(x, 18) ^ (x >> 3)
}

pub fn small_sigma_1(x: u32) -> (r: u32)
    ensures
        r == rotated(x, 17) ^ rotated(x, 19) ^ (x >> 10),
{
    rotate_right(x, 17) ^ rotate_right(x, 19) ^ (x >> 10)
}

/// The sum of two words, modulo the word size.
#[verifier::opaque]
pub open spec fn plus(x: u32, y: u32) -> u32 {
    ((x + y) % 0x1_0000_0000) as u32
}

fn sum(x: u32, y: u32) -> (r: u32)
    ensures
        r == plus(x, y),
{
    reveal(plus);
    x.wrapping_add(y)
}

/// The round constants of SHA-256.
#[verifier::opaque]
pub open spec fn round_constants() -> Seq<u32> {
    seq![
        0x428a_2f98u32, 0x7137_4491u32, 0xb5c0_fbcfu32, 0xe9b5_dba5u32,
        0x3956_c25bu32, 0x59f1_11f1u32, 0x923f_82a4u32, 0xab1c_5ed5u32,
        0xd807_aa98u32, 0x1283_5b01u32, 0x2431_85beu32, 0x550c_7dc3u32,
        0x72be_5d74u32, 0x80de_b1feu32, 0x9bdc_06a7u32, 0xc19b_f174u32,
        0xe49b_69c1u32, 0xefbe_4786u32, 0x0fc1_9dc6u32, 0x240c_a1ccu32,
        0x2de9_2c6fu32, 0x4a74_84aau32, 0x5cb0_a9dcu32, 0x76f9_88dau32,
        0x983e_5152u32, 0xa831_c66du32, 0xb003_27c8u32, 0xbf59_7fc7u32,
        0xc6e0_0bf3u32, 0xd5a7_9147u32, 0x06ca_6351u32, 0x1429_2967u32,
        0x27b7_0a85u32, 0x2e1b_2138u32, 0x4d2c_6dfcu32, 0x5338_0d13u32,
        0x650a_7354u32, 0x766a_0abbu32, 0x81c2_c92eu32, 0x9272_2c85u32,
        0xa2bf_e8a1u32, 0xa81a_664bu32, 0xc24b_8b70u32, 0xc76c_51a3u32,
        0xd192_e819u32, 0xd699_0624u32, 0xf40e_3585u32, 0x106a_a070u32,
        0x19a4_c116u32, 0x1e37_6c08u32, 0x2748_774cu32, 0x34b0_bcb5u32,
        0x391c_0cb3u32, 0x4ed8_aa4au32, 0x5b9c_ca4fu32, 0x682e_6ff3u32,
        0x748f_82eeu32, 0x78a5_636fu32, 0x84c8_7814u32, 0x8cc7_0208u32,
        0x90be_fffau32, 0xa450_6cebu32, 0xbef9_a3f7u32, 0xc671_78f2u32,
    ]
}

fn round_constant(round: usize) -> (r: u32)
    requires
        round < 64,
    ensures
        r == round_constants()[round as int],
{
    let k: [u32; 64] = [
        0x428a_2f98, 0x7137_4491, 0xb5c0_fbcf, 0xe9b5_dba5,
        0x3956_c25b, 0x59f1_11f1, 0x923f_82a4, 0xab1c_5ed5,
        0xd807_aa98, 0x1283_5b01, 0x2431_85be, 0x550c_7dc3,
        0x72be_5d74, 0x80de_b1fe, 0x9bdc_06a7, 0xc19b_f174,
        0xe49b_69c1, 0xefbe_4786, 0x0fc1_9dc6, 0x240c_a1cc,
        0x2de9_2c6f, 0x4a74_84aa, 0x5cb0_a9dc, 0x76f9_88da,
        0x983e_5152, 0xa831_c66d, 0xb003_27c8, 0xbf59_7fc7,
        0xc6e0_0bf3, 0xd5a7_9147, 0x06ca_6351, 0x1429_2967,
        0x27b7_0a85, 0x2e1b_2138, 0x4d2c_6dfc, 0x5338_0d13,
        0x650a_7354, 0x766a_0abb, 0x81c2_c92e, 0x9272_2c85,
        0xa2bf_e8a1, 0xa81a_664b, 0xc24b_8b70, 0xc76c_51a3,
        0xd192_e819, 0xd699_0624, 0xf40e_3585, 0x106a_a070,
        0x19a4_c116, 0x1e37_6c08, 0x2748_774c, 0x34b0_bcb5,
        0x391c_0cb3, 0x4ed8_aa4a, 0x5b9c_ca4f, 0x682e_6ff3,
        0x748f_82ee, 0x78a5_636f, 0x84c8_7814, 0x8cc7_0208,
        0x90be_fffa, 0xa450_6ceb, 0xbef9_a3f7, 0xc671_78f2,
    ];
    reveal(round_constants);
    assert(k@ =~= round_constants());
    k[round]
}

/// Word `t` of the message schedule of a block.
#[verifier::opaque]
pub open spec fn scheduled(block: Seq<u32>, t: int) -> u32
    decreases t,
{
    if t < 16 {
        block[t]
    } else {
        let x = scheduled(block, t - 2);
        let y = scheduled(block, t - 15);
        plus(
            plus(
                plus(
                    rotated(x, 17) ^ rotated(x, 19) ^ (x >> 10),
                    scheduled(block, t - 7),
                ),
                rotated(y, 7) ^ rotated(y, 18) ^ (y >> 3),
            ),
            scheduled(block, t - 16),
        )
    }
}

/// The eight working words, `a` to `h`.
#[derive(Clone, Copy)]
pub struct Working {
    pub a: u32,
    pub b: u32,
    pub c: u32,
    pub d: u32,
    pub e: u32,
    pub f: u32,
    pub g: u32,
    pub h: u32,
}

/// The initial hash value.
pub open spec fn initial_working() -> Working {
    Working {
        a: 0x6a09_e667,
        b: 0xbb67_ae85,
        c: 0x3c6e_f372,
        d: 0xa54f_f53a,
        e: 0x510e_527f,
        f: 0x9b05_688c,
        g: 0x1f83_d9ab,
        h: 0x5be0_cd19,
    }
}

/// One round with schedule word `w` and constant `k`.
#[verifier::opaque]
pub open spec fn rounded(s: Working, w: u32, k: u32) -> Working {
    let temp1 = plus(
        plus(
            plus(
                plus(s.h, rotated(s.e, 6) ^ rotated(s.e, 11) ^ rotated(s.e, 25)),
                (s.e & s.f) ^ (!s.e & s.g),
            ),
            k,
        ),
        w,
    );
    let temp2 = plus(
        rotated(s.a, 2) ^ rotated(s.a, 13) ^ rotated(s.a, 22),
        (s.a & s.b) ^ (s.a & s.c) ^ (s.b & s.c),
    );
    Working {
        a: plus(temp1, temp2),
        b: s.a,
        c: s.b,
        d: s.c,
        e: plus(s.d, temp1),
        f: s.e,
        g: s.f,
        h: s.g,
    }
}

/// The working words after `n` rounds on a block.
pub open spec fn after_rounds(block: Seq<u32>, n: nat) -> Working
    decreases n,
{
    if n == 0 {
        initial_working()
    } else {
        rounded(
            after_rounds(block, (n - 1) as nat),
            scheduled(block, n - 1),
            round_constants()[n - 1],
        )
    }
}

/// One round.
fn round(s: Working, w: u32, k: u32) -> (r: Working)
    ensures
        r == rounded(s, w, k),
{
    reveal(rounded);
    let temp1: u32 = sum(sum(sum(sum(s.h, big_sigma_1(s.e)), choice(s.e, s.f, s.g)), k), w);
    let temp2: u32 = sum(big_sigma_0(s.a), majority(s.a, s.b, s.c));
    Working {
        a: sum(temp1, temp2),
        b: s.a,
        c: s.b,
        d: s.c,
        e: sum(s.d, temp1),
        f: s.e,
        g: s.f,
        h: s.g,
    }
}

/// The sixteen latest words of the schedule, before round `t`.
pub open spec fn window(block: Seq<u32>, schedule: Seq<u32>, t: int) -> bool {
    &&& schedule.len() == 16
    &&& t <= 16 ==> schedule == block
    &&& t > 16 ==> forall|u: int|
        t - 16 <= u < t ==> #[trigger] scheduled(block, u) == schedule[u % 16]
}

/// The word of round `t`, which takes the place of the oldest.
fn schedule_word(schedule: &mut [u32; 16], t: usize, block: Ghost<Seq<u32>>) -> (r: u32)
    requires
        block@.len() == 16,
        t < 64,
        window(block@, old(schedule)@, t as int),
    ensures
        r == scheduled(block@, t as int),
        window(block@, final(schedule)@, t + 1),
{
    let ghost before = schedule@;
    let slot: usize = t % 16;
    proof {
        reveal(scheduled);
        if t == 16 {
            assert forall|u: int| 0 <= u < 16 implies #[trigger] scheduled(block@, u) == before[u
                % 16] by {
                assert(u % 16 == u);
            }
        }
    }
    if t < 16 {
        return schedule[slot];
    }
    let value: u32 = sum(
        sum(
            sum(small_sigma_1(schedule[(t - 2) % 16]), schedule[(t - 7) % 16]),
            small_sigma_0(schedule[(t - 15) % 16]),
        ),
        schedule[slot],
    );
    proof {
        assert(scheduled(block@, t - 2) == before[(t - 2) % 16]);
        assert(scheduled(block@, t - 7) == before[(t - 7) % 16]);
        assert(scheduled(block@, t - 15) == before[(t - 15) % 16]);
        assert(scheduled(block@, t - 16) == before[(t - 16) % 16]);
        assert((t - 16) % 16 == slot);
    }
    schedule[slot] = value;
    proof {
        assert forall|u: int| t - 15 <= u < t + 1 implies #[trigger] scheduled(block@, u)
            == schedule@[u % 16] by {
            if u < t {
                assert(scheduled(block@, u) == before[u % 16]);
                assert(u % 16 != t % 16);
            }
        }
    }
    value
}

/// The first word of the SHA-256 compression of one block from the initial
/// hash value.
pub fn sha256_compress(block: [u32; 16]) -> (r: u32)
    ensures
        r == plus(after_rounds(block@, 64).a, 0x6a09_e667),
{
    let mut schedule: [u32; 16] = block;
    let mut s = Working {
        a: 0x6a09_e667,
        b: 0xbb67_ae85,
        c: 0x3c6e_f372,
        d: 0xa54f_f53a,
        e: 0x510e_527f,
        f: 0x9b05_688c,
        g: 0x1f83_d9ab,
        h: 0x5be0_cd19,
    };
    let mut t: usize = 0;
    while t < 64
        invariant
            t <= 64,
            s == after_rounds(block@, t as nat),
            window(block@, schedule@, t as int),
        decreases 64 - t,
    {
        let w: u32 = schedule_word(&mut schedule, t, Ghost(block@));
        s = round(s, w, round_constant(t));
        t = t + 1;
    }
    sum(s.a, 0x6a09_e667)
}

/// The next multiple of `align` from `cursor` on.
pub open spec fn aligned_up(cursor: int, align: int) -> int {
    if cursor % align == 0 {
        cursor
    } else {
        cursor + align - cursor % align
    }
}

/// Where a bump allocator that hands out nothing twice places a request of
/// `size` bytes, and the cursor behind it, if that is below `capacity`.
pub fn bump(cursor: usize, size: usize, align: usize, capacity: usize) -> (r: Option<
    (usize, usize),
>)
    requires
        align > 0,
    ensures
        r == if aligned_up(cursor as int, align as int) + size <= capacity {
            Some(
                (
                    aligned_up(cursor as int, align as int) as usize,
                    (aligned_up(cursor as int, align as int) + size) as usize,
                ),
            )
        } else {
            None
        },
{
    let over: usize = cursor % align;
    let gap: usize = if over == 0 {
        0
    } else {
        align - over
    };
    if size > capacity || cursor > capacity - size || gap > capacity - size - cursor {
        return None;
    }
    Some((cursor + gap, cursor + gap + size))
}

/// The allocator wastes nothing: no multiple of `align` lies between the cursor
/// and the place it picks.
pub proof fn aligned_up_is_least(cursor: int, align: int, other: int)
    requires
        align > 0,
        cursor >= 0,
        cursor <= other,
        other % align == 0,
    ensures
        aligned_up(cursor, align) % align == 0,
        cursor <= aligned_up(cursor, align) <= other,
{
    let over = cursor % align;
    let q = cursor / align;
    let m = other / align;
    assert(cursor == q * align + over && 0 <= over < align && other == m * align)
        by (nonlinear_arith)
        requires
            align > 0,
            over == cursor % align,
            q == cursor / align,
            m == other / align,
            other % align == 0,
    ;
    let k = if over == 0 {
        q
    } else {
        q + 1
    };
    let least = aligned_up(cursor, align);
    assert(least == k * align && k <= m) by (nonlinear_arith)
        requires
            align > 0,
            0 <= over < align,
            cursor == q * align + over,
            cursor <= other,
            other == m * align,
            least == if over == 0 {
                cursor
            } else {
                cursor + align - over
            },
            k == if over == 0 {
                q
            } else {
                q + 1
            },
    ;
    assert(k * align <= m * align) by (nonlinear_arith)
        requires
            align > 0,
            k <= m,
    ;
    vstd::arithmetic::div_mod::lemma_mod_multiples_basic(k, align);
}

/// What the test finisher of a RISC-V machine is told: a pass, or a failure
/// with a code that is never zero.
pub fn finisher_status(code: u16) -> (r: u32)
    ensures
        r == if code == 0 {
            0x5555
        } else {
            code * 0x1_0000 + 0x3333
        },
{
    if code == 0 {
        0x5555
    } else {
        (code as u32) * 0x1_0000 + 0x3333
    }
}

/// The digit of a number below sixteen.
pub open spec fn hex_digit(d: int) -> u8 {
    if d < 10 {
        (0x30 + d) as u8
    } else {
        (0x57 + d) as u8
    }
}

/// Sixteen to the power of `n`.
pub open spec fn sixteens(n: nat) -> nat
    decreases n,
{
    if n == 0 {
        1
    } else {
        16 * sixteens((n - 1) as nat)
    }
}

/// The eight hexadecimal digits of a code, the most significant first.
pub fn hex_report(code: u32) -> (r: [u8; 8])
    ensures
        forall|i: int|
            0 <= i < 8 ==> #[trigger] r@[i] == hex_digit(
                (code as int / sixteens((7 - i) as nat) as int) % 16,
            ),
{
    let mut report: [u8; 8] = [0; 8];
    let mut rest: u32 = code;
    let mut i: usize = 8;
    proof {
        assert(code as int / 1 == code as int);
        assert(sixteens(0) == 1);
    }
    while i > 0
        invariant
            i <= 8,
            rest as int == code as int / sixteens((8 - i) as nat) as int,
            forall|j: int|
                i <= j < 8 ==> #[trigger] report@[j] == hex_digit(
                    (code as int / sixteens((7 - j) as nat) as int) % 16,
                ),
        decreases i,
    {
        let digit: u8 = (rest % 16) as u8;
        i = i - 1;
        report[i] = if digit < 10 {
            0x30 + digit
        } else {
            0x57 + digit
        };
        proof {
            let p = sixteens((7 - i) as nat) as int;
            assert(sixteens((8 - i) as nat) == 16 * p);
            sixteens_positive((7 - i) as nat);
            assert((code as int / p) / 16 == code as int / (16 * p)) by (nonlinear_arith)
                requires
                    p > 0,
                    code >= 0,
            ;
        }
        rest = rest / 16;
    }
    report
}

proof fn sixteens_positive(n: nat)
    ensures
        sixteens(n) > 0,
    decreases n,
{
    if n > 0 {
        sixteens_positive((n - 1) as nat);
    }
}

/// The number that decimal digits spell, the most significant first.
pub open spec fn decimal_value(digits: Seq<u8>) -> int
    decreases digits.len(),
{
    if digits.len() == 0 {
        0
    } else {
        10 * decimal_value(digits.drop_last()) + (digits.last() - 0x30)
    }
}

/// The decimal digits of a number, without leading zeros.
pub fn decimal(value: usize) -> (r: Vec<u8>)
    ensures
        decimal_value(r@) == value,
        r@.len() > 0,
        forall|i: int| 0 <= i < r@.len() ==> 0x30 <= #[trigger] r@[i] <= 0x39,
        r@.len() > 1 ==> r@[0] != 0x30,
    decreases value,
{
    let digit: u8 = 0x30 + (value % 10) as u8;
    if value < 10 {
        let mut r: Vec<u8> = Vec::new();
        r.push(digit);
        assert(r@.drop_last() =~= Seq::<u8>::empty());
        assert(decimal_value(r@.drop_last()) == 0);
        r
    } else {
        let mut r = decimal(value / 10);
        let ghost before = r@;
        assert(before.len() == 1 ==> before[0] != 0x30) by {
            if before.len() == 1 {
                assert(before.drop_last() =~= Seq::<u8>::empty());
                assert(decimal_value(before.drop_last()) == 0);
            }
        }
        r.push(digit);
        assert(r@.drop_last() =~= before);
        r
    }
}

} // verus!
