//! Encoder: packs a resolved program tree into 32-bit machine words and
//! serializes them as Intel-HEX text.
//!
//! An instruction word holds the opcode in bits 31..28, then `rd`, `ra`
//! and `rb` in four bits each, and the immediate truncated to 16 bits.
//! A HEX record is `:`, the byte count `04`, the 16-bit word address in
//! big-endian hex, the record type `00`, the word's four bytes, and a
//! checksum: the two's complement of the sum of all preceding bytes.

use vstd::prelude::*;

use crate::types::{
    is_concrete, Bl, DataNodeV, Instr, InstructionNode, InstructionNodeV, ProgramBinary,
    ProgramBinaryV, ProgramTree, ProgramTreeV,
};
use crate::mylexer::push_char;
use vstd::wrapping::u32_specs;

verus! {

/// A tree the encoder accepts: every instruction concrete, every data
/// node one of the three data directives.
pub open spec fn encodable(t: ProgramTreeV) -> bool {
    &&& forall|i: int| 0 <= i < t.instructions.len() ==> is_concrete(#[trigger] t.instructions[i].op)
    &&& forall|i: int|
        0 <= i < t.data.len() ==> ((#[trigger] t.data[i].block) == Bl::Word || t.data[i].block
            == Bl::Space || t.data[i].block == Bl::Addr)
}

/// The four-bit code of a concrete opcode.
pub open spec fn opcode_val(op: Instr) -> u32 {
    match op {
        Instr::And => 0,
        Instr::Or => 1,
        Instr::Xor => 2,
        Instr::Not => 3,
        Instr::Add => 4,
        Instr::Sub => 5,
        Instr::Cmp => 6,
        Instr::J => 7,
        Instr::Beq => 8,
        Instr::Bne => 9,
        Instr::Sl => 10,
        Instr::Sr => 11,
        Instr::Addi => 12,
        Instr::Lui => 13,
        Instr::Lw => 14,
        Instr::Sw => 15,
        _ => 0,
    }
}

/// The machine word of one concrete instruction node.
pub open spec fn encode_instr(n: InstructionNodeV) -> u32 {
    (opcode_val(n.op) << 28u32) | (((n.rd as u32) & 0xf) << 24u32) | (((n.ra as u32) & 0xf)
        << 20u32) | (((n.rb as u32) & 0xf) << 16u32) | ((n.imm & 0xffff) as u32)
}

/// `n` zero-valued words.
pub open spec fn zero_words(n: u32) -> Seq<u32> {
    Seq::new(n as nat, |i: int| 0u32)
}

/// The stored words of one data node: a `.word` stores its literal
/// truncated to 32 bits, a `.space` stores `num` zero words, and an
/// `.addr` owns no storage.
pub open spec fn data_node_words(n: DataNodeV) -> Seq<u32> {
    match n.block {
        Bl::Word => seq![(n.data & 0xffff_ffff) as u32],
        Bl::Space => zero_words(n.num),
        _ => Seq::empty(),
    }
}

/// How many words a data node stores: one for `.word`, `num` for
/// `.space`, none for `.addr`.
pub open spec fn data_node_count(n: DataNodeV) -> int {
    match n.block {
        Bl::Word => 1,
        Bl::Space => n.num as int,
        _ => 0,
    }
}

/// The words stored by the first `k` nodes together.
pub open spec fn words_before(nodes: Seq<DataNodeV>, k: int) -> int
    decreases k,
{
    if k <= 0 {
        0
    } else {
        words_before(nodes, k - 1) + data_node_count(nodes[k - 1])
    }
}

/// Appending a node leaves the word counts of existing prefixes alone.
pub proof fn lemma_words_before_push(nodes: Seq<DataNodeV>, n: DataNodeV, k: int)
    requires
        k <= nodes.len(),
    ensures
        words_before(nodes.push(n), k) == words_before(nodes, k),
    decreases k,
{
    if k > 0 {
        lemma_words_before_push(nodes, n, k - 1);
    }
}

/// The stored words of a data node list, in order.
pub open spec fn data_words(nodes: Seq<DataNodeV>) -> Seq<u32>
    decreases nodes.len(),
{
    if nodes.len() == 0 {
        Seq::empty()
    } else {
        data_node_words(nodes[0]) + data_words(nodes.drop_first())
    }
}

proof fn lemma_words_before_step(nodes: Seq<DataNodeV>, k: int)
    requires
        1 <= k <= nodes.len(),
    ensures
        words_before(nodes, k) == data_node_count(nodes[0]) + words_before(nodes.drop_first(), k - 1),
    decreases k,
{
    assert(words_before(nodes, k) == words_before(nodes, k - 1) + data_node_count(nodes[k - 1]));
    if k > 1 {
        lemma_words_before_step(nodes, k - 1);
        assert(nodes.drop_first()[k - 2] == nodes[k - 1]);
        assert(words_before(nodes.drop_first(), k - 1) == words_before(nodes.drop_first(), k - 2)
            + data_node_count(nodes.drop_first()[k - 2]));
    } else {
        assert(words_before(nodes, 0) == 0);
        assert(words_before(nodes.drop_first(), 0) == 0);
    }
}

/// A data node list stores exactly the words counted before its end:
/// the encoder emits [`words_before`]`(nodes, len)` data words.
pub proof fn lemma_data_words_len(nodes: Seq<DataNodeV>)
    ensures
        data_words(nodes).len() == words_before(nodes, nodes.len() as int),
    decreases nodes.len(),
{
    if nodes.len() > 0 {
        lemma_data_words_len(nodes.drop_first());
        lemma_words_before_step(nodes, nodes.len() as int);
    }
}

/// The machine words of an instruction node list, in order.
pub open spec fn instr_words(instrs: Seq<InstructionNodeV>) -> Seq<u32> {
    Seq::new(instrs.len(), |i: int| encode_instr(instrs[i]))
}

/// The binary form of a resolved tree.
pub open spec fn spec_print_binary(t: ProgramTreeV) -> ProgramBinaryV {
    ProgramBinaryV { instructions: instr_words(t.instructions), data: data_words(t.data) }
}

fn encode_one(n: &InstructionNode) -> (w: u32)
    requires
        is_concrete(n.op),
    ensures
        w == encode_instr(n@),
{
    let op: u32 = match n.op {
        Instr::And => 0,
        Instr::Or => 1,
        Instr::Xor => 2,
        Instr::Not => 3,
        Instr::Add => 4,
        Instr::Sub => 5,
        Instr::Cmp => 6,
        Instr::J => 7,
        Instr::Beq => 8,
        Instr::Bne => 9,
        Instr::Sl => 10,
        Instr::Sr => 11,
        Instr::Addi => 12,
        Instr::Lui => 13,
        Instr::Lw => 14,
        Instr::Sw => 15,
        _ => 0,
    };
    (op << 28u32) | (((n.rd as u32) & 0xf) << 24u32) | (((n.ra as u32) & 0xf) << 20u32) | (((n.rb
        as u32) & 0xf) << 16u32) | ((n.imm & 0xffff) as u32)
}

/// Convert a resolved program tree to its binary form: one word per
/// instruction, the stored data words in order; yields exactly
/// [`spec_print_binary`].
pub fn print_binary(tree: ProgramTree) -> (binary: ProgramBinary)
    requires
        encodable(tree@),
    ensures
        binary@ == spec_print_binary(tree@),
{
    let ghost t0 = tree@;
    let mut data: Vec<u32> = Vec::new();
    let mut di: usize = 0;
    proof {
        assert(t0.data.skip(0) =~= t0.data);
    }
    while di < tree.data.len()
        invariant
            di <= tree.data@.len(),
            tree@ == t0,
            encodable(t0),
            data_words(t0.data) == data@ + data_words(t0.data.skip(di as int)),
        decreases tree.data@.len() - di,
    {
        let ghost d0 = data@;
        proof {
            assert(t0.data.skip(di as int).drop_first() =~= t0.data.skip(di as int + 1));
            assert(t0.data.skip(di as int)[0] == t0.data[di as int]);
        }
        let node = &tree.data[di];
        match node.block {
            Bl::Addr => {},
            Bl::Word => {
                data.push((node.data & 0xffff_ffff) as u32);
                proof {
                    assert(data@ =~= d0 + data_node_words(t0.data[di as int]));
                }
            },
            Bl::Space => {
                let mut z: u32 = 0;
                while z < node.num
                    invariant
                        z <= node.num,
                        node.block == Bl::Space,
                        node@ == t0.data[di as int],
                        data@ == d0 + zero_words(z),
                    decreases node.num - z,
                {
                    data.push(0);
                    proof {
                        assert(data@ =~= d0 + zero_words((z + 1) as u32));
                    }
                    z = z + 1;
                }
            },
            _ => {
                proof {
                    assert(false);
                }
            },
        }
        proof {
            assert(data@ =~= d0 + data_node_words(t0.data[di as int]));
            assert(d0 + data_node_words(t0.data[di as int]) + data_words(
                t0.data.skip(di as int + 1),
            ) =~= d0 + (data_node_words(t0.data[di as int]) + data_words(
                t0.data.skip(di as int + 1),
            )));
        }
        di = di + 1;
    }
    proof {
        assert(t0.data.skip(t0.data.len() as int) =~= Seq::<DataNodeV>::empty());
        assert(data@ + Seq::<u32>::empty() =~= data@);
    }
    let mut instructions: Vec<u32> = Vec::new();
    let mut ii: usize = 0;
    while ii < tree.instructions.len()
        invariant
            ii <= tree.instructions@.len(),
            tree@ == t0,
            encodable(t0),
            instructions@.len() == ii,
            forall|j: int|
                0 <= j < ii ==> instructions@[j] == encode_instr(#[trigger] t0.instructions[j]),
        decreases tree.instructions@.len() - ii,
    {
        proof {
            assert(is_concrete(t0.instructions[ii as int].op));
        }
        let w = encode_one(&tree.instructions[ii]);
        instructions.push(w);
        ii = ii + 1;
    }
    let binary = ProgramBinary { instructions, data };
    proof {
        assert(binary.instructions@ =~= instr_words(t0.instructions));
        assert(data_words(t0.data) =~= binary.data@);
    }
    binary
}

/// The character of one hexadecimal digit, upper case.
pub open spec fn hex_digit_char(d: int) -> char {
    if d == 0 {
        '0'
    } else if d == 1 {
        '1'
    } else if d == 2 {
        '2'
    } else if d == 3 {
        '3'
    } else if d == 4 {
        '4'
    } else if d == 5 {
        '5'
    } else if d == 6 {
        '6'
    } else if d == 7 {
        '7'
    } else if d == 8 {
        '8'
    } else if d == 9 {
        '9'
    } else if d == 10 {
        'A'
    } else if d == 11 {
        'B'
    } else if d == 12 {
        'C'
    } else if d == 13 {
        'D'
    } else if d == 14 {
        'E'
    } else {
        'F'
    }
}

/// The upper-case hexadecimal digits of `v`, at least `width` of them,
/// zero-padded on the left.
pub open spec fn hex_seq(v: nat, width: nat) -> Seq<char>
    decreases v + width,
{
    if v < 16 && width <= 1 {
        seq![hex_digit_char(v as int)]
    } else {
        hex_seq(v / 16, if width >= 1 {
            (width - 1) as nat
        } else {
            0
        }).push(hex_digit_char((v % 16) as int))
    }
}

fn hex_digit(d: u32) -> (c: char)
    requires
        d < 16,
    ensures
        c == hex_digit_char(d as int),
{
    match d {
        0 => '0',
        1 => '1',
        2 => '2',
        3 => '3',
        4 => '4',
        5 => '5',
        6 => '6',
        7 => '7',
        8 => '8',
        9 => '9',
        10 => 'A',
        11 => 'B',
        12 => 'C',
        13 => 'D',
        14 => 'E',
        _ => 'F',
    }
}

/// Append the hexadecimal form of `v`, at least `width` digits wide.
fn push_hex(s: &mut String, v: u32, width: usize)
    ensures
        final(s)@ == old(s)@ + hex_seq(v as nat, width as nat),
    decreases v + width,
{
    if v < 16 && width <= 1 {
        push_char(s, hex_digit(v));
        proof {
            assert(final(s)@ =~= old(s)@ + hex_seq(v as nat, width as nat));
        }
    } else {
        push_hex(s, v / 16, if width >= 1 {
            width - 1
        } else {
            0
        });
        push_char(s, hex_digit(v % 16));
        proof {
            assert(final(s)@ =~= old(s)@ + hex_seq(v as nat, width as nat));
        }
    }
}

/// The checksum byte of one HEX record: the two's complement of the sum
/// of the record's byte count, address bytes, type and data bytes.
pub open spec fn hex_checksum(addr: u32, data: u32) -> u32 {
    let sum = (0x04 + (addr & 0xff) + ((addr >> 8u32) & 0xff) + (data & 0xff) + ((data >> 8u32)
        & 0xff) + ((data >> 16u32) & 0xff) + ((data >> 24u32) & 0xff)) as u32;
    (!sum + 1) as u32 & 0xff
}

/// One HEX record: `:04`, the address in four hex digits, `00`, the data
/// word in eight hex digits, the checksum in two, and a newline.
pub open spec fn spec_hex_line(addr: u32, data: u32) -> Seq<char> {
    seq![':', '0', '4'] + hex_seq(addr as nat, 4) + seq!['0', '0'] + hex_seq(data as nat, 8)
        + hex_seq(hex_checksum(addr, data) as nat, 2) + seq!['\n']
}

/// Format a single Intel-HEX record for one data word; yields exactly
/// [`spec_hex_line`].
pub fn print_hex_line(addr: u32, data: u32) -> (r: String)
    ensures
        r@ == spec_hex_line(addr, data),
{
    proof {
        assert(addr & 0xff <= 0xff) by (bit_vector);
        assert((addr >> 8u32) & 0xff <= 0xff) by (bit_vector);
        assert(data & 0xff <= 0xff) by (bit_vector);
        assert((data >> 8u32) & 0xff <= 0xff) by (bit_vector);
        assert((data >> 16u32) & 0xff <= 0xff) by (bit_vector);
        assert((data >> 24u32) & 0xff <= 0xff) by (bit_vector);
    }
    let mut checksum: u32 = 0x04 + (addr & 0xff) + ((addr >> 8u32) & 0xff) + (data & 0xff) + ((data
        >> 8u32) & 0xff) + ((data >> 16u32) & 0xff) + ((data >> 24u32) & 0xff);
    proof {
        let c = checksum;
        assert(c >= 4 ==> !c <= 0xffff_fffbu32) by (bit_vector);
    }
    checksum = !checksum + 1;
    checksum = checksum & 0xff;
    let mut r = String::new();
    push_char(&mut r, ':');
    push_char(&mut r, '0');
    push_char(&mut r, '4');
    push_hex(&mut r, addr, 4);
    push_char(&mut r, '0');
    push_char(&mut r, '0');
    push_hex(&mut r, data, 8);
    push_hex(&mut r, checksum, 2);
    push_char(&mut r, '\n');
    proof {
        assert(r@ =~= spec_hex_line(addr, data));
    }
    r
}

/// The end-of-file record closing every HEX stream.
pub open spec fn hex_footer() -> Seq<char> {
    seq![':', '0', '0', '0', '0', '0', '0', '0', '1', 'F', 'F', '\n']
}

/// The records of `words`, one per word, at consecutive word addresses
/// starting at `addr`.
pub open spec fn hex_lines(words: Seq<u32>, addr: u32) -> Seq<char>
    decreases words.len(),
{
    if words.len() == 0 {
        Seq::empty()
    } else {
        spec_hex_line(addr, words[0]) + hex_lines(
            words.drop_first(),
            u32_specs::wrapping_add(addr, 1),
        )
    }
}

/// The whole HEX stream of a binary: instruction words from word address
/// 0, data words from word address `offset`, then the end-of-file record.
pub open spec fn spec_print_hex(b: ProgramBinaryV, offset: u32) -> Seq<char> {
    hex_lines(b.instructions, 0) + hex_lines(b.data, offset) + hex_footer()
}

/// Serialize the binary as Intel-HEX text for uploading to hardware:
/// word-addressable memory, data remapped to `offset`; yields exactly
/// [`spec_print_hex`].
pub fn print_hex(binary: ProgramBinary, offset: u32) -> (r: String)
    ensures
        r@ == spec_print_hex(binary@, offset),
{
    let ghost b0 = binary@;
    let mut hex = String::new();
    let mut addr: u32 = 0;
    let mut i: usize = 0;
    proof {
        assert(b0.instructions.skip(0) =~= b0.instructions);
        assert(hex@ =~= Seq::<char>::empty());
    }
    while i < binary.instructions.len()
        invariant
            i <= binary.instructions@.len(),
            binary@ == b0,
            hex_lines(b0.instructions, 0) == hex@ + hex_lines(
                b0.instructions.skip(i as int),
                addr,
            ),
        decreases binary.instructions@.len() - i,
    {
        let ghost h0 = hex@;
        proof {
            assert(b0.instructions.skip(i as int).drop_first() =~= b0.instructions.skip(
                i as int + 1,
            ));
            assert(b0.instructions.skip(i as int)[0] == b0.instructions[i as int]);
        }
        let line = print_hex_line(addr, binary.instructions[i]);
        hex.append(line.as_str());
        proof {
            assert(h0 + spec_hex_line(addr, b0.instructions[i as int]) + hex_lines(
                b0.instructions.skip(i as int + 1),
                u32_specs::wrapping_add(addr, 1),
            ) =~= h0 + (spec_hex_line(addr, b0.instructions[i as int]) + hex_lines(
                b0.instructions.skip(i as int + 1),
                u32_specs::wrapping_add(addr, 1),
            )));
        }
        addr = addr.wrapping_add(1);
        i = i + 1;
    }
    let ghost head = hex@;
    addr = offset;
    let mut j: usize = 0;
    proof {
        assert(b0.instructions.skip(b0.instructions.len() as int) =~= Seq::<u32>::empty());
        assert(head + Seq::<char>::empty() =~= head);
        assert(b0.data.skip(0) =~= b0.data);
    }
    while j < binary.data.len()
        invariant
            j <= binary.data@.len(),
            binary@ == b0,
            head == hex_lines(b0.instructions, 0),
            hex_lines(b0.instructions, 0) + hex_lines(b0.data, offset) == hex@ + hex_lines(
                b0.data.skip(j as int),
                addr,
            ),
        decreases binary.data@.len() - j,
    {
        let ghost h0 = hex@;
        proof {
            assert(b0.data.skip(j as int).drop_first() =~= b0.data.skip(j as int + 1));
            assert(b0.data.skip(j as int)[0] == b0.data[j as int]);
        }
        let line = print_hex_line(addr, binary.data[j]);
        hex.append(line.as_str());
        proof {
            assert(h0 + spec_hex_line(addr, b0.data[j as int]) + hex_lines(
                b0.data.skip(j as int + 1),
                u32_specs::wrapping_add(addr, 1),
            ) =~= h0 + (spec_hex_line(addr, b0.data[j as int]) + hex_lines(
                b0.data.skip(j as int + 1),
                u32_specs::wrapping_add(addr, 1),
            )));
        }
        addr = addr.wrapping_add(1);
        j = j + 1;
    }
    proof {
        assert(b0.data.skip(b0.data.len() as int) =~= Seq::<u32>::empty());
        assert(hex@ + Seq::<char>::empty() =~= hex@);
    }
    hex.append(":00000001FF\n");
    proof {
        reveal_strlit(":00000001FF\n");
        assert(":00000001FF\n"@ =~= hex_footer());
        assert(hex@ =~= spec_print_hex(b0, offset));
    }
    hex
}

/// Every HEX stream ends with the fixed end-of-file record
/// `:00000001FF` and a newline.
pub proof fn lemma_print_hex_ends_with_footer(b: ProgramBinaryV, offset: u32)
    ensures
        spec_print_hex(b, offset).len() >= hex_footer().len(),
        spec_print_hex(b, offset).skip(
            spec_print_hex(b, offset).len() - hex_footer().len(),
        ) =~= hex_footer(),
{
    let s = spec_print_hex(b, offset);
    assert(s.skip(s.len() - hex_footer().len()) =~= hex_footer());
}

} // verus!
