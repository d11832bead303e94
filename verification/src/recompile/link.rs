//! Linking: the tables follow the code, and the instructions that ask for
//! their addresses are patched.
use crate::memory::{bytes_from_word, word_from_bytes};
use crate::recompile::emit::TableData;
use vstd::prelude::*;

verus! {

/// The word at `at`.
pub open spec fn word_at(bytes: Seq<u8>, at: int) -> u32 {
    crate::memory::le_num(bytes.subrange(at, at + 4)) as u32
}

/// How far an `ADR` instruction reaches.
pub open spec fn adr_reach(word: u32) -> int {
    let encoded = ((word >> 29) & 0x3) | (((word >> 5) & 0x7_FFFF) << 2);
    if encoded < 0x10_0000 {
        encoded as int
    } else {
        encoded - 0x20_0000
    }
}

/// What of an `ADR` instruction is not its reach: the operation and the
/// register.
pub open spec fn adr_rest(word: u32) -> u32 {
    word & 0x9F00_001F
}

/// A word with another reach.
fn with_reach(word: u32, encoded: u32) -> (r: u32)
    requires
        encoded < 0x20_0000,
    ensures
        adr_rest(r) == adr_rest(word),
        adr_reach(r) == if encoded < 0x10_0000 {
            encoded as int
        } else {
            encoded - 0x20_0000
        },
{
    let immlo: u32 = encoded & 0x3;
    let immhi: u32 = (encoded >> 2) & 0x7_FFFF;
    let r: u32 = (word & 0x9F00_001F) | (immlo << 29) | (immhi << 5);
    assert((r & 0x9F00_001F) == (word & 0x9F00_001F) && (((r >> 29) & 0x3) | (((r >> 5) & 0x7_FFFF)
        << 2)) == encoded) by (bit_vector)
        requires
            encoded < 0x20_0000,
            immlo == encoded & 0x3,
            immhi == (encoded >> 2) & 0x7_FFFF,
            r == (word & 0x9F00_001F) | (immlo << 29) | (immhi << 5),
    ;
    r
}

/// Make the `ADR` instruction at `instruction_offset` reach `target_offset`.
pub fn patch_adr(bytes: &mut Vec<u8>, instruction_offset: usize, target_offset: usize)
    requires
        instruction_offset + 4 <= old(bytes)@.len(),
        -0x10_0000 <= target_offset - instruction_offset < 0x10_0000,
    ensures
        final(bytes)@.len() == old(bytes)@.len(),
        adr_reach(word_at(final(bytes)@, instruction_offset as int)) == target_offset
            - instruction_offset,
        adr_rest(word_at(final(bytes)@, instruction_offset as int)) == adr_rest(
            word_at(old(bytes)@, instruction_offset as int),
        ),
        forall|i: int|
            0 <= i < old(bytes)@.len() && !(instruction_offset <= i < instruction_offset + 4)
                ==> final(bytes)@[i] == old(bytes)@[i],
{
    let at: usize = instruction_offset;
    assert(bytes.len() == bytes@.len());
    let encoded: u32 = if target_offset >= at {
        (target_offset - at) as u32
    } else {
        0x20_0000 - (at - target_offset) as u32
    };
    let old_bytes: [u8; 4] = [bytes[at], bytes[at + 1], bytes[at + 2], bytes[at + 3]];
    let word: u32 = word_from_bytes(old_bytes);
    assert(old_bytes@ =~= bytes@.subrange(at as int, at + 4));
    let patched: u32 = with_reach(word, encoded);
    let new_bytes: [u8; 4] = bytes_from_word(patched);
    bytes.set(at, new_bytes[0]);
    bytes.set(at + 1, new_bytes[1]);
    bytes.set(at + 2, new_bytes[2]);
    bytes.set(at + 3, new_bytes[3]);
    proof {
        assert(bytes@.subrange(at as int, at + 4) =~= new_bytes@);
        crate::memory::le_num_of_bytes(patched);
    }
}


/// Where table `i` starts, behind `size` bytes of code.
pub open spec fn table_start(size: int, tables: Seq<TableData>, i: int) -> int
    decreases i,
{
    if i <= 0 {
        size
    } else {
        table_start(size, tables, i - 1) + 4 * tables[i - 1].values@.len()
    }
}

/// Every table can be reached: each has an instruction of its own that asks
/// for its address, less than a mebibyte before it.
pub open spec fn linkable(size: int, tables: Seq<TableData>, asks: Seq<usize>) -> bool {
    &&& asks.len() == tables.len()
    &&& size % 4 == 0
    &&& forall|i: int|
        0 <= i < tables.len() ==> {
            &&& #[trigger] asks[i] % 4 == 0
            &&& asks[i] + 4 <= size
            &&& table_start(size, tables, i) - asks[i] < 0x10_0000
        }
    &&& forall|i: int, j: int| 0 <= i < j < asks.len() ==> asks[i] != asks[j]
}

/// An artifact: code whose instructions reach its first `n` tables, which
/// follow it.
pub open spec fn linked(
    code: Seq<u8>,
    tables: Seq<TableData>,
    asks: Seq<usize>,
    n: int,
    artifact: Seq<u8>,
) -> bool {
    let size = code.len() as int;
    // The rows follow the code, table by table.
    &&& artifact.len() == table_start(size, tables, n)
    &&& forall|i: int, k: int|
        0 <= i < n && 0 <= k < tables[i].values@.len() ==> word_at(
            artifact,
            table_start(size, tables, i) + 4 * k,
        ) == #[trigger] tables[i].values@[k]
    // Each instruction that asks for a table reaches it.
    &&& forall|i: int|
        0 <= i < n ==> adr_reach(word_at(artifact, #[trigger] asks[i] as int)) == table_start(
            size,
            tables,
            i,
        ) - asks[i]
    // Nothing else of the code is touched.
    &&& forall|i: int|
        0 <= i < n ==> adr_rest(word_at(artifact, #[trigger] asks[i] as int)) == adr_rest(
            word_at(code, asks[i] as int),
        )
    &&& forall|b: int|
        0 <= b < size && (forall|i: int|
            0 <= i < n ==> !(#[trigger] asks[i] <= b < asks[i] + 4)) ==> #[trigger] artifact[b]
            == code[b]
}

/// Tables start behind the code, at multiples of four, one behind the other.
proof fn starts_in_order(size: int, tables: Seq<TableData>, i: int, j: int)
    requires
        size % 4 == 0,
        0 <= i <= j <= tables.len(),
    ensures
        size <= table_start(size, tables, i) <= table_start(size, tables, j),
        table_start(size, tables, j) % 4 == 0,
        i < j ==> table_start(size, tables, i) + 4 * tables[i].values@.len() <= table_start(
            size,
            tables,
            j,
        ),
    decreases j,
{
    if j > 0 {
        if i < j {
            starts_in_order(size, tables, i, j - 1);
        } else {
            starts_in_order(size, tables, i - 1, j - 1);
        }
    }
}

/// A table lies between the code and the end of the artifact.
pub proof fn table_inside(size: int, tables: Seq<TableData>, i: int)
    requires
        0 <= i < tables.len(),
    ensures
        size <= table_start(size, tables, i),
        table_start(size, tables, i) + 4 * tables[i].values@.len() <= table_start(
            size,
            tables,
            tables.len() as int,
        ),
{
    table_order(size, tables, 0, i);
    table_order(size, tables, i + 1, tables.len() as int);
}

/// Tables start one behind the other.
proof fn table_order(size: int, tables: Seq<TableData>, i: int, j: int)
    requires
        0 <= i <= j <= tables.len(),
    ensures
        table_start(size, tables, i) <= table_start(size, tables, j),
    decreases j,
{
    if i < j {
        table_order(size, tables, i, j - 1);
    }
}

/// Append the words of a table.
fn append_words(bytes: &mut Vec<u8>, words: &Vec<u32>)
    ensures
        final(bytes)@.len() == old(bytes)@.len() + 4 * words@.len(),
        forall|b: int| 0 <= b < old(bytes)@.len() ==> final(bytes)@[b] == old(bytes)@[b],
        forall|k: int|
            0 <= k < words@.len() ==> word_at(final(bytes)@, old(bytes)@.len() + 4 * k)
                == #[trigger] words@[k],
{
    let ghost before = bytes@;
    let mut i: usize = 0;
    while i < words.len()
        invariant
            i <= words@.len(),
            bytes@.len() == before.len() + 4 * i,
            forall|b: int| 0 <= b < before.len() ==> bytes@[b] == before[b],
            forall|k: int|
                0 <= k < i ==> word_at(bytes@, before.len() + 4 * k) == #[trigger] words@[k],
        decreases words@.len() - i,
    {
        let ghost start = bytes@;
        let word: u32 = words[i];
        let new_bytes: [u8; 4] = bytes_from_word(word);
        bytes.push(new_bytes[0]);
        bytes.push(new_bytes[1]);
        bytes.push(new_bytes[2]);
        bytes.push(new_bytes[3]);
        proof {
            assert(bytes@.subrange(before.len() + 4 * i, before.len() + 4 * i + 4)
                =~= new_bytes@);
            crate::memory::le_num_of_bytes(word);
            assert forall|k: int| 0 <= k < i implies word_at(bytes@, before.len() + 4 * k)
                == #[trigger] words@[k] by {
                let at = before.len() + 4 * k;
                assert(bytes@.subrange(at, at + 4) =~= start.subrange(at, at + 4));
            }
        }
        i = i + 1;
    }
}

/// Append the tables to the encoded instructions, each reached by the
/// instruction at its place in `asks`.
pub fn link(code: Vec<u8>, tables: &Vec<TableData>, asks: &Vec<usize>) -> (r: Vec<u8>)
    requires
        linkable(code@.len() as int, tables@, asks@),
    ensures
        linked(code@, tables@, asks@, tables@.len() as int, r@),
{
    let ghost size = code@.len() as int;
    let ghost given = code@;
    let mut bytes: Vec<u8> = code;
    let mut i: usize = 0;
    while i < tables.len()
        invariant
            i <= tables@.len(),
            size == given.len(),
            linkable(size, tables@, asks@),
            linked(given, tables@, asks@, i as int, bytes@),
        decreases tables@.len() - i,
    {
        let ghost before = bytes@;
        let target: usize = bytes.len();
        let ghost at = asks@[i as int] as int;
        proof {
            starts_in_order(size, tables@, i as int, i as int);
        }
        patch_adr(&mut bytes, asks[i], target);
        let ghost patched = bytes@;
        append_words(&mut bytes, &tables[i].values);
        proof {
            assert forall|b: int| 0 <= b < before.len() && !(at <= b < at + 4) implies bytes@[b]
                == before[b] by {
                assert(bytes@[b] == patched[b]);
            }
            assert(word_at(bytes@, at) == word_at(patched, at)) by {
                assert(bytes@.subrange(at, at + 4) =~= patched.subrange(at, at + 4));
            }
            assert(word_at(before, at) == word_at(given, at)) by {
                assert(before.subrange(at, at + 4) =~= given.subrange(at, at + 4));
            }
            assert forall|j: int| 0 <= j < i implies word_at(bytes@, #[trigger] asks@[j] as int)
                == word_at(before, asks@[j] as int) by {
                let b = asks@[j] as int;
                assert(bytes@.subrange(b, b + 4) =~= before.subrange(b, b + 4));
            }
            assert forall|j: int, k: int|
                0 <= j < i + 1 && 0 <= k < tables@[j].values@.len() implies word_at(
                bytes@,
                table_start(size, tables@, j) + 4 * k,
            ) == #[trigger] tables@[j].values@[k] by {
                if j < i {
                    starts_in_order(size, tables@, j, i as int);
                    let b = table_start(size, tables@, j) + 4 * k;
                    assert(bytes@.subrange(b, b + 4) =~= before.subrange(b, b + 4));
                }
            }
            assert forall|b: int|
                0 <= b < size && (forall|j: int|
                    0 <= j < i + 1 ==> !(#[trigger] asks@[j] <= b < asks@[j] + 4)) implies
                #[trigger] bytes@[b] == given[b] by {
                assert(!(asks@[i as int] <= b < asks@[i as int] + 4));
                assert(before[b] == given[b]);
            }
        }
        i = i + 1;
    }
    bytes
}

} // verus!
