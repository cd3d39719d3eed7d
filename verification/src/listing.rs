//! Disassembly: the instructions and literal words of a program image.
use crate::bytes_buf::{bytes_len, bytes_view};
use crate::decode::spec_decode;
use crate::encode::spec_encode;
use crate::isa::Instruction;
use crate::memory::{lemma_word_bytes, stored_byte, word_le, Memory};
use crate::roundtrip::{lemma_decode_encode, nop_becomes_halt};
use bytes::BytesMut;
use vstd::prelude::*;

verus! {

/// A line of a program listing.
#[derive(Clone, Copy, Debug, PartialEq, Eq)]
pub enum ListingLine {
    /// the instruction at an address
    Instruction(u32, Instruction),
    /// the literal word at an address, which the instruction before it reads
    Literal(u32, u32),
}

/// Why a listing stops early.
#[derive(Clone, Copy, Debug, PartialEq, Eq, Structural)]
pub enum ListingError {
    /// fewer than four bytes are left at this address
    Truncated(u32),
    /// the word at this address encodes no instruction
    Undecodable(u32, u32),
}

/// The little-endian word at `i` of `s`.
pub open spec fn image_word(s: Seq<u8>, i: int) -> u32 {
    word_le(s[i], s[i + 1], s[i + 2], s[i + 3])
}

/// The listing of `s` from address `index` on: each instruction, followed by
/// its literal word when it reads one, until the end of the image; and why
/// the listing stopped early, if it did.
pub open spec fn listing_from(s: Seq<u8>, index: int) -> (Seq<ListingLine>, Option<ListingError>)
    decreases s.len() - index,
{
    if index < 0 || index >= s.len() {
        (Seq::empty(), None)
    } else if index + 4 > s.len() {
        (Seq::empty(), Some(ListingError::Truncated(index as u32)))
    } else {
        let w = image_word(s, index);
        match spec_decode(w) {
            Err(_) => (Seq::empty(), Some(ListingError::Undecodable(index as u32, w))),
            Ok(i) => {
                let first = ListingLine::Instruction(index as u32, i);
                if i.spec_has_upcoming_value() {
                    let d = index + 4;
                    if d + 4 > s.len() {
                        (seq![first], Some(ListingError::Truncated(d as u32)))
                    } else {
                        let rest = listing_from(s, d + 4);
                        (seq![first, ListingLine::Literal(d as u32, image_word(s, d))] + rest.0, rest.1)
                    }
                } else {
                    let rest = listing_from(s, index + 4);
                    (seq![first] + rest.0, rest.1)
                }
            },
        }
    }
}

/// Lists a program image from address 0: the lines up to where the listing
/// stops, and why it stopped early, if it did. The image fits the 32-bit
/// address space.
pub fn disassemble(program: &BytesMut) -> (r: (Vec<ListingLine>, Option<ListingError>))
    requires
        bytes_view(*program).len() <= u32::MAX,
    ensures
        (r.0@, r.1) == listing_from(bytes_view(*program), 0),
{
    let ghost s = bytes_view(*program);
    let size = program.size();
    let mut lines: Vec<ListingLine> = Vec::new();
    let mut index: u32 = 0;
    while index < size
        invariant
            size == s.len(),
            s == bytes_view(*program),
            s.len() <= u32::MAX,
            listing_from(s, 0) == (lines@ + listing_from(s, index as int).0, listing_from(
                s,
                index as int,
            ).1),
        decreases size - index,
    {
        if size - index < 4 {
            proof {
                assert(lines@ + Seq::<ListingLine>::empty() =~= lines@);
            }
            return (lines, Some(ListingError::Truncated(index)));
        }
        let instr_word = program.read_u32(index);
        let instr = match Instruction::try_from(instr_word) {
            Ok(i) => i,
            Err(_) => {
                proof {
                    assert(lines@ + Seq::<ListingLine>::empty() =~= lines@);
                }
                return (lines, Some(ListingError::Undecodable(index, instr_word)));
            },
        };
        let ghost old_lines = lines@;
        lines.push(ListingLine::Instruction(index, instr));
        if instr.has_upcoming_value() {
            index = index + 4;
            if size - index < 4 {
                proof {
                    assert(lines@ + Seq::<ListingLine>::empty() =~= lines@);
                    assert(old_lines + seq![ListingLine::Instruction((index - 4) as u32, instr)]
                        =~= lines@);
                }
                return (lines, Some(ListingError::Truncated(index)));
            }
            let data_word = program.read_u32(index);
            lines.push(ListingLine::Literal(index, data_word));
            proof {
                let first = ListingLine::Instruction((index - 4) as u32, instr);
                let rest = listing_from(s, index + 4);
                assert(old_lines + (seq![first, ListingLine::Literal(index, data_word)] + rest.0)
                    =~= lines@ + rest.0);
            }
        } else {
            proof {
                let rest = listing_from(s, index + 4);
                assert(old_lines + (seq![ListingLine::Instruction(index, instr)] + rest.0) =~= lines@
                    + rest.0);
            }
        }
        index = index + 4;
    }
    proof {
        assert(lines@ + Seq::<ListingLine>::empty() =~= lines@);
    }
    (lines, None)
}

/// Lists a program image from address 0 when it fits the 32-bit address
/// space, as `disassemble` does; `None` when it is longer.
pub fn try_disassemble(program: &BytesMut) -> (r: Option<(Vec<ListingLine>, Option<ListingError>)>)
    ensures
        match r {
            Some(l) => bytes_view(*program).len() <= u32::MAX && (l.0@, l.1) == listing_from(
                bytes_view(*program),
                0,
            ),
            None => bytes_view(*program).len() > u32::MAX,
        },
{
    let n = bytes_len(program);
    if n as u64 > 0xFFFF_FFFFu64 {
        None
    } else {
        Some(disassemble(program))
    }
}

/// The word that a listing line stands for in a program image.
pub open spec fn line_word(l: ListingLine) -> u32 {
    match l {
        ListingLine::Instruction(_, i) => spec_encode(i),
        ListingLine::Literal(_, w) => w,
    }
}

/// The address of a listing line.
pub open spec fn line_address(l: ListingLine) -> u32 {
    match l {
        ListingLine::Instruction(a, _) => a,
        ListingLine::Literal(a, _) => a,
    }
}

/// The program image of the words `ws`: the four bytes of each word, least
/// significant first, one word after the other.
pub open spec fn words_image(ws: Seq<u32>) -> Seq<u8>
    decreases ws.len(),
{
    if ws.len() == 0 {
        Seq::empty()
    } else {
        let w = ws.last();
        words_image(ws.drop_last()) + seq![
            stored_byte(w, 0),
            stored_byte(w, 1),
            stored_byte(w, 2),
            stored_byte(w, 3),
        ]
    }
}

/// Whether `ls` is the listing of a program image: line `j` stands at
/// address `4 j`; an instruction that reads a literal word is followed by
/// that word, and each literal word follows such an instruction; decoding
/// gives each instruction back; and the image fits the address space.
pub open spec fn is_program_listing(ls: Seq<ListingLine>) -> bool {
    &&& 4 * ls.len() <= u32::MAX
    &&& forall|j: int| 0 <= j < ls.len() ==> line_address(#[trigger] ls[j]) == 4 * j
    &&& forall|j: int|
        0 <= j < ls.len() ==> (#[trigger] ls[j] matches ListingLine::Instruction(_, i) ==> {
            &&& !nop_becomes_halt(i)
            &&& i.spec_has_upcoming_value() ==> j + 1 < ls.len() && ls[j + 1] is Literal
        })
    &&& forall|j: int|
        0 <= j < ls.len() ==> (#[trigger] ls[j] is Literal ==> {
            &&& j > 0
            &&& ls[j - 1] matches ListingLine::Instruction(_, i) && i.spec_has_upcoming_value()
        })
}

/// The image of `ws` has four bytes per word, and the word at `4 j` is `ws[j]`.
proof fn lemma_words_image(ws: Seq<u32>)
    ensures
        words_image(ws).len() == 4 * ws.len(),
        forall|j: int| 0 <= j < ws.len() ==> #[trigger] image_word(words_image(ws), 4 * j) == ws[j],
    decreases ws.len(),
{
    if ws.len() > 0 {
        let front = ws.drop_last();
        lemma_words_image(front);
        let w = ws.last();
        let s = words_image(ws);
        let p = words_image(front);
        assert forall|j: int| 0 <= j < ws.len() implies #[trigger] image_word(s, 4 * j) == ws[j] by {
            if j < front.len() {
                assert(s[4 * j] == p[4 * j]);
                assert(s[4 * j + 1] == p[4 * j + 1]);
                assert(s[4 * j + 2] == p[4 * j + 2]);
                assert(s[4 * j + 3] == p[4 * j + 3]);
                assert(image_word(p, 4 * j) == front[j]);
            } else {
                lemma_word_bytes(w, 0, 0, 0, 0);
            }
        }
    }
}

/// Listing the image of a program listing from line `k` on gives the lines
/// from `k` on.
proof fn lemma_listing_from_image(ls: Seq<ListingLine>, k: int)
    requires
        is_program_listing(ls),
        0 <= k <= ls.len(),
        k == ls.len() || ls[k] is Instruction,
    ensures
        listing_from(words_image(ls.map_values(|l: ListingLine| line_word(l))), 4 * k) == (
            ls.skip(k),
            None::<ListingError>,
        ),
    decreases ls.len() - k,
{
    let ws = ls.map_values(|l: ListingLine| line_word(l));
    let s = words_image(ws);
    lemma_words_image(ws);
    if k == ls.len() {
        assert(ls.skip(k) =~= Seq::<ListingLine>::empty());
    } else {
        let i = ls[k]->Instruction_1;
        assert(line_address(ls[k]) == 4 * k);
        assert(image_word(s, 4 * k) == ws[k]);
        lemma_decode_encode(i);
        if i.spec_has_upcoming_value() {
            assert(ls[k + 1] is Literal);
            assert(line_address(ls[k + 1]) == 4 * (k + 1));
            assert(image_word(s, 4 * (k + 1)) == ws[k + 1]);
            if k + 2 < ls.len() {
                assert(!(ls[k + 2] is Literal));
            }
            lemma_listing_from_image(ls, k + 2);
            assert(seq![ls[k], ls[k + 1]] + ls.skip(k + 2) =~= ls.skip(k));
        } else {
            if k + 1 < ls.len() {
                assert(!(ls[k + 1] is Literal));
            }
            lemma_listing_from_image(ls, k + 1);
            assert(seq![ls[k]] + ls.skip(k + 1) =~= ls.skip(k));
        }
    }
}

/// Listing the image of a program listing gives back that listing, and the
/// listing does not stop early.
pub proof fn lemma_listing_of_image(ls: Seq<ListingLine>)
    requires
        is_program_listing(ls),
    ensures
        listing_from(words_image(ls.map_values(|l: ListingLine| line_word(l))), 0) == (
            ls,
            None::<ListingError>,
        ),
{
    if ls.len() > 0 {
        assert(!(ls[0] is Literal));
    }
    lemma_listing_from_image(ls, 0);
    assert(ls.skip(0) =~= ls);
}

} // verus!
