//! Linker: builds the symbol table from every labelled node, then
//! resolves each symbolic operand into a concrete immediate.
//!
//! `spec_link` defines the result: pass one collects label → address,
//! walking data nodes then instruction nodes in tree order and failing on
//! the first duplicate; pass two rewrites each instruction that carries a
//! symbolic operand, failing on the first unknown name. Branches take the
//! relative displacement `target − source`; `addi` takes the low and
//! `lui` the high half of the target address.

use vstd::prelude::*;

use crate::printer::encodable;
use crate::types::{
    is_concrete, DataNodeV, Instr, InstructionNode, InstructionNodeV, ProgramTree, ProgramTreeV,
};

verus! {

/// Link failure kinds, each carrying the exact name at fault.
#[derive(Debug, PartialEq, Eq, Clone)]
pub enum LinkerError {
    /// A symbolic operand names no label. The entry label `main` is
    /// reported through this kind as well.
    UnknownIdentifier(String),
    /// A label is defined more than once.
    RedefinedIdentifier(String),
}

/// Spec-level value of a [`LinkerError`].
pub enum LinkerErrorV {
    UnknownIdentifier(Seq<char>),
    RedefinedIdentifier(Seq<char>),
}

impl View for LinkerError {
    type V = LinkerErrorV;

    open spec fn view(&self) -> LinkerErrorV {
        match self {
            LinkerError::UnknownIdentifier(s) => LinkerErrorV::UnknownIdentifier(s@),
            LinkerError::RedefinedIdentifier(s) => LinkerErrorV::RedefinedIdentifier(s@),
        }
    }
}

/// The label → address map an association list holds; the earliest entry
/// of a name wins.
pub open spec fn assoc_map(entries: Seq<(String, u32)>) -> Map<Seq<char>, u32>
    decreases entries.len(),
{
    if entries.len() == 0 {
        Map::empty()
    } else {
        assoc_map(entries.drop_first()).insert(entries[0].0@, entries[0].1)
    }
}

proof fn lemma_assoc_push(entries: Seq<(String, u32)>, p: (String, u32))
    ensures
        assoc_map(entries).contains_key(p.0@) ==> assoc_map(entries.push(p)) =~= assoc_map(
            entries,
        ),
        !assoc_map(entries).contains_key(p.0@) ==> assoc_map(entries.push(p)) =~= assoc_map(
            entries,
        ).insert(p.0@, p.1),
    decreases entries.len(),
{
    if entries.len() == 0 {
        assert(entries.push(p).drop_first() =~= entries);
    } else {
        assert(entries.push(p).drop_first() =~= entries.drop_first().push(p));
        lemma_assoc_push(entries.drop_first(), p);
    }
}

proof fn lemma_assoc_first_match(entries: Seq<(String, u32)>, k: int)
    requires
        0 <= k < entries.len(),
        forall|j: int| 0 <= j < k ==> (#[trigger] entries[j]).0@ != entries[k].0@,
    ensures
        assoc_map(entries).contains_key(entries[k].0@),
        assoc_map(entries)[entries[k].0@] == entries[k].1,
    decreases entries.len(),
{
    if k > 0 {
        assert(forall|j: int|
            0 <= j < k - 1 ==> (#[trigger] entries.drop_first()[j]).0@ == entries[j + 1].0@);
        lemma_assoc_first_match(entries.drop_first(), k - 1);
    }
}

proof fn lemma_assoc_absent(entries: Seq<(String, u32)>, key: Seq<char>)
    requires
        forall|j: int| 0 <= j < entries.len() ==> (#[trigger] entries[j]).0@ != key,
    ensures
        !assoc_map(entries).contains_key(key),
    decreases entries.len(),
{
    if entries.len() > 0 {
        assert(forall|j: int|
            0 <= j < entries.len() - 1 ==> (#[trigger] entries.drop_first()[j]).0@ == entries[j
                + 1].0@);
        lemma_assoc_absent(entries.drop_first(), key);
    }
}

/// Look a label up in the association list.
fn table_get(table: &Vec<(String, u32)>, key: &String) -> (r: Option<u32>)
    ensures
        match r {
            Some(v) => assoc_map(table@).contains_key(key@) && assoc_map(table@)[key@] == v,
            None => !assoc_map(table@).contains_key(key@),
        },
{
    let mut k: usize = 0;
    loop
        invariant
            k <= table@.len(),
            forall|j: int| 0 <= j < k ==> (#[trigger] table@[j]).0@ != key@,
        ensures
            k <= table@.len(),
            forall|j: int| 0 <= j < k ==> (#[trigger] table@[j]).0@ != key@,
            k < table@.len() ==> table@[k as int].0@ == key@,
            k == table@.len() ==> !assoc_map(table@).contains_key(key@),
        decreases table@.len() - k,
    {
        if k >= table.len() {
            proof {
                lemma_assoc_absent(table@, key@);
            }
            break ;
        }
        if table[k].0 == *key {
            break ;
        }
        k = k + 1;
    }
    if k < table.len() {
        proof {
            lemma_assoc_first_match(table@, k as int);
        }
        Some(table[k].1)
    } else {
        None
    }
}

/// Pass one over the data nodes: insert every labelled node, failing with
/// the first name already present.
pub open spec fn spec_add_data_syms(m: Map<Seq<char>, u32>, nodes: Seq<DataNodeV>) -> Result<
    Map<Seq<char>, u32>,
    Seq<char>,
>
    decreases nodes.len(),
{
    if nodes.len() == 0 {
        Ok(m)
    } else {
        let n = nodes[0];
        if n.identifier.len() == 0 {
            spec_add_data_syms(m, nodes.drop_first())
        } else if m.contains_key(n.identifier) {
            Err(n.identifier)
        } else {
            spec_add_data_syms(m.insert(n.identifier, n.address), nodes.drop_first())
        }
    }
}

/// Pass one over the instruction nodes.
pub open spec fn spec_add_instr_syms(
    m: Map<Seq<char>, u32>,
    nodes: Seq<InstructionNodeV>,
) -> Result<Map<Seq<char>, u32>, Seq<char>>
    decreases nodes.len(),
{
    if nodes.len() == 0 {
        Ok(m)
    } else {
        let n = nodes[0];
        if n.identifier.len() == 0 {
            spec_add_instr_syms(m, nodes.drop_first())
        } else if m.contains_key(n.identifier) {
            Err(n.identifier)
        } else {
            spec_add_instr_syms(m.insert(n.identifier, n.address), nodes.drop_first())
        }
    }
}

/// The symbol table of a tree: data labels first, then instruction
/// labels, in tree order; `Err` carries the first name defined twice.
pub open spec fn spec_symbols(t: ProgramTreeV) -> Result<Map<Seq<char>, u32>, Seq<char>> {
    match spec_add_data_syms(Map::empty(), t.data) {
        Err(d) => Err(d),
        Ok(m) => spec_add_instr_syms(m, t.instructions),
    }
}

/// Pass two on one node: a node without a symbolic operand is unchanged;
/// otherwise its immediate is computed from the target address by the
/// opcode's rule.
pub open spec fn spec_resolve_node(n: InstructionNodeV, m: Map<Seq<char>, u32>) -> Result<
    InstructionNodeV,
    Seq<char>,
> {
    if n.imm_identifier.len() == 0 {
        Ok(n)
    } else if !m.contains_key(n.imm_identifier) {
        Err(n.imm_identifier)
    } else {
        let target = m[n.imm_identifier];
        let imm2 = match n.op {
            Instr::Beq | Instr::Bne => (target as int - n.address as int) as i64,
            Instr::Addi => (target & 0xffff) as i64,
            Instr::Lui => ((target & 0xffff0000) >> 16u32) as i64,
            _ => n.imm,
        };
        Ok(
            InstructionNodeV {
                op: n.op,
                rd: n.rd,
                ra: n.ra,
                rb: n.rb,
                imm: imm2,
                identifier: n.identifier,
                imm_identifier: n.imm_identifier,
                address: n.address,
            },
        )
    }
}

/// Pass two over all instruction nodes; `Err` carries the first name with
/// no matching label.
pub open spec fn spec_resolve_all(
    instrs: Seq<InstructionNodeV>,
    m: Map<Seq<char>, u32>,
) -> Result<Seq<InstructionNodeV>, Seq<char>>
    decreases instrs.len(),
{
    if instrs.len() == 0 {
        Ok(Seq::empty())
    } else {
        match spec_resolve_node(instrs[0], m) {
            Err(x) => Err(x),
            Ok(n0) => match spec_resolve_all(instrs.drop_first(), m) {
                Err(x) => Err(x),
                Ok(rest) => Ok(seq![n0] + rest),
            },
        }
    }
}

/// The link result of a tree: the same tree with every symbolic operand
/// resolved, or the first failing name.
pub open spec fn spec_link(t: ProgramTreeV) -> Result<ProgramTreeV, LinkerErrorV> {
    match spec_symbols(t) {
        Err(d) => Err(LinkerErrorV::RedefinedIdentifier(d)),
        Ok(m) => match spec_resolve_all(t.instructions, m) {
            Err(u) => Err(LinkerErrorV::UnknownIdentifier(u)),
            Ok(instrs2) => Ok(ProgramTreeV { instructions: instrs2, data: t.data }),
        },
    }
}

/// Link all symbolic operands of the tree to concrete immediates; yields
/// exactly what [`spec_link`] assigns to it.
pub fn link(tree: ProgramTree) -> (r: Result<ProgramTree, LinkerError>)
    ensures
        match r {
            Ok(t2) => spec_link(tree@) == Ok::<ProgramTreeV, LinkerErrorV>(t2@),
            Err(e) => spec_link(tree@) == Err::<ProgramTreeV, LinkerErrorV>(e@),
        },
{
    let ghost t0 = tree@;
    let mut table: Vec<(String, u32)> = Vec::new();
    proof {
        assert(t0.data.skip(0) =~= t0.data);
        assert(assoc_map(table@) =~= Map::<Seq<char>, u32>::empty());
    }
    let mut di: usize = 0;
    while di < tree.data.len()
        invariant
            di <= tree.data@.len(),
            tree@ == t0,
            spec_add_data_syms(Map::empty(), t0.data) == spec_add_data_syms(
                assoc_map(table@),
                t0.data.skip(di as int),
            ),
        decreases tree.data@.len() - di,
    {
        proof {
            assert(t0.data.skip(di as int).drop_first() =~= t0.data.skip(di as int + 1));
            assert(t0.data.skip(di as int)[0] == t0.data[di as int]);
        }
        let id = &tree.data[di].identifier;
        if !id.as_str().is_empty() {
            match table_get(&table, id) {
                Some(_) => {
                    proof {
                        assert(assoc_map(table@).contains_key(id@));
                        assert(t0.data[di as int].identifier == id@);
                        assert(spec_add_data_syms(assoc_map(table@), t0.data.skip(di as int))
                            == Err::<Map<Seq<char>, u32>, Seq<char>>(id@));
                        assert(spec_symbols(t0) == Err::<Map<Seq<char>, u32>, Seq<char>>(id@));
                    }
                    return Err(LinkerError::RedefinedIdentifier(id.clone()));
                },
                None => {
                    let ghost table0 = table@;
                    let p = (id.clone(), tree.data[di].address);
                    table.push(p);
                    proof {
                        lemma_assoc_push(table0, p);
                    }
                },
            }
        }
        di = di + 1;
    }
    proof {
        assert(t0.data.skip(t0.data.len() as int) =~= Seq::<DataNodeV>::empty());
    }
    let ghost m1 = assoc_map(table@);
    proof {
        assert(t0.instructions.skip(0) =~= t0.instructions);
    }
    let mut ii: usize = 0;
    while ii < tree.instructions.len()
        invariant
            ii <= tree.instructions@.len(),
            tree@ == t0,
            spec_add_data_syms(Map::empty(), t0.data) == Ok::<Map<Seq<char>, u32>, Seq<char>>(m1),
            spec_add_instr_syms(m1, t0.instructions) == spec_add_instr_syms(
                assoc_map(table@),
                t0.instructions.skip(ii as int),
            ),
        decreases tree.instructions@.len() - ii,
    {
        proof {
            assert(t0.instructions.skip(ii as int).drop_first() =~= t0.instructions.skip(
                ii as int + 1,
            ));
            assert(t0.instructions.skip(ii as int)[0] == t0.instructions[ii as int]);
        }
        let id = &tree.instructions[ii].identifier;
        if !id.as_str().is_empty() {
            match table_get(&table, id) {
                Some(_) => {
                    proof {
                        assert(assoc_map(table@).contains_key(id@));
                        assert(t0.instructions[ii as int].identifier == id@);
                        assert(spec_add_instr_syms(assoc_map(table@), t0.instructions.skip(ii as int))
                            == Err::<Map<Seq<char>, u32>, Seq<char>>(id@));
                        assert(spec_symbols(t0) == Err::<Map<Seq<char>, u32>, Seq<char>>(id@));
                    }
                    return Err(LinkerError::RedefinedIdentifier(id.clone()));
                },
                None => {
                    let ghost table0 = table@;
                    let p = (id.clone(), tree.instructions[ii].address);
                    table.push(p);
                    proof {
                        lemma_assoc_push(table0, p);
                    }
                },
            }
        }
        ii = ii + 1;
    }
    proof {
        assert(t0.instructions.skip(t0.instructions.len() as int) =~= Seq::<
            InstructionNodeV,
        >::empty());
    }
    let ghost m = assoc_map(table@);
    proof {
        assert(spec_symbols(t0) == Ok::<Map<Seq<char>, u32>, Seq<char>>(m));
        assert(t0.instructions.skip(0) =~= t0.instructions);
        assert(Seq::<InstructionNodeV>::empty() + spec_resolve_all(t0.instructions, m)->Ok_0
            =~= spec_resolve_all(t0.instructions, m)->Ok_0);
    }
    let mut resolved: Vec<InstructionNode> = Vec::new();
    proof {
        assert(resolved.deep_view() =~= Seq::<InstructionNodeV>::empty());
    }
    let mut ri: usize = 0;
    while ri < tree.instructions.len()
        invariant
            ri <= tree.instructions@.len(),
            resolved@.len() == ri,
            tree@ == t0,
            m == assoc_map(table@),
            spec_symbols(t0) == Ok::<Map<Seq<char>, u32>, Seq<char>>(m),
            spec_resolve_all(t0.instructions, m) == (match spec_resolve_all(
                t0.instructions.skip(ri as int),
                m,
            ) {
                Ok(rest) => Ok::<Seq<InstructionNodeV>, Seq<char>>(resolved.deep_view() + rest),
                Err(x) => Err::<Seq<InstructionNodeV>, Seq<char>>(x),
            }),
        decreases tree.instructions@.len() - ri,
    {
        let ghost rview0 = resolved.deep_view();
        proof {
            assert(t0.instructions.skip(ri as int).drop_first() =~= t0.instructions.skip(
                ri as int + 1,
            ));
            assert(t0.instructions.skip(ri as int)[0] == t0.instructions[ri as int]);
        }
        let n = &tree.instructions[ri];
        let imm2: i64;
        if !n.imm_identifier.as_str().is_empty() {
            let target = match table_get(&table, &n.imm_identifier) {
                Some(a) => a,
                None => {
                    proof {
                        let name = t0.instructions[ri as int].imm_identifier;
                        assert(spec_resolve_all(t0.instructions, m) == Err::<
                            Seq<InstructionNodeV>,
                            Seq<char>,
                        >(name));
                    }
                    return Err(LinkerError::UnknownIdentifier(n.imm_identifier.clone()));
                },
            };
            imm2 = match n.op {
                Instr::Beq | Instr::Bne => (target as i64) - (n.address as i64),
                Instr::Addi => (target & 0xffff) as i64,
                Instr::Lui => ((target & 0xffff0000) >> 16u32) as i64,
                _ => n.imm,
            };
        } else {
            imm2 = n.imm;
        }
        let node2 = InstructionNode {
            op: n.op,
            rd: n.rd,
            ra: n.ra,
            rb: n.rb,
            imm: imm2,
            identifier: n.identifier.clone(),
            imm_identifier: n.imm_identifier.clone(),
            address: n.address,
        };
        resolved.push(node2);
        proof {
            let n0 = resolved@[ri as int]@;
            assert(spec_resolve_node(t0.instructions[ri as int], m) == Ok::<
                InstructionNodeV,
                Seq<char>,
            >(n0));
            assert(resolved.deep_view() =~= rview0 + seq![n0]);
            let rem = spec_resolve_all(t0.instructions.skip(ri as int + 1), m);
            if rem is Ok {
                assert((rview0 + seq![n0]) + rem->Ok_0 =~= rview0 + (seq![n0] + rem->Ok_0));
            }
        }
        ri = ri + 1;
    }
    proof {
        assert(t0.instructions.skip(t0.instructions.len() as int) =~= Seq::<
            InstructionNodeV,
        >::empty());
        assert(resolved.deep_view() + Seq::<InstructionNodeV>::empty() =~= resolved.deep_view());
    }
    let out = ProgramTree { instructions: resolved, data: tree.data };
    proof {
        assert(out@ == ProgramTreeV { instructions: out.instructions.deep_view(), data: t0.data });
    }
    Ok(out)
}

/// The opcode-specific resolution rules: a branch resolves to the
/// displacement `target − source`, which may be negative; `addi`
/// resolves to the low and `lui` to the high sixteen bits of the target
/// address; any other opcode keeps its immediate.
pub proof fn lemma_resolution_rules(n: InstructionNodeV, m: Map<Seq<char>, u32>)
    requires
        n.imm_identifier.len() > 0,
        m.contains_key(n.imm_identifier),
    ensures
        spec_resolve_node(n, m) matches Ok(r2) ==> {
            let target = m[n.imm_identifier];
            &&& (n.op == Instr::Beq || n.op == Instr::Bne) ==> r2.imm == target as int
                - n.address as int
            &&& n.op == Instr::Addi ==> r2.imm == (target & 0xffff) as i64
            &&& n.op == Instr::Lui ==> r2.imm == ((target & 0xffff0000) >> 16u32) as i64
            &&& !(n.op == Instr::Beq || n.op == Instr::Bne || n.op == Instr::Addi || n.op
                == Instr::Lui) ==> r2.imm == n.imm
        },
{
}

/// Resolution rewrites each node by [`spec_resolve_node`] alone: on
/// success the list has the same length and the `i`-th output node is
/// the `i`-th input node resolved. In particular a branch's immediate
/// becomes `target − source`, `addi` takes the low and `lui` the high
/// sixteen bits of the target address, and every other field is kept.
pub proof fn lemma_spec_resolve_all_elementwise(
    instrs: Seq<InstructionNodeV>,
    m: Map<Seq<char>, u32>,
)
    ensures
        spec_resolve_all(instrs, m) matches Ok(rs) ==> {
            &&& rs.len() == instrs.len()
            &&& forall|i: int|
                0 <= i < instrs.len() ==> spec_resolve_node(#[trigger] instrs[i], m) is Ok
            &&& forall|i: int|
                0 <= i < instrs.len() ==> rs[i] == spec_resolve_node(#[trigger] instrs[i], m)->Ok_0
        },
    decreases instrs.len(),
{
    if instrs.len() > 0 {
        match spec_resolve_node(instrs[0], m) {
            Err(_) => {},
            Ok(n0) => {
                lemma_spec_resolve_all_elementwise(instrs.drop_first(), m);
                match spec_resolve_all(instrs.drop_first(), m) {
                    Err(_) => {},
                    Ok(rest) => {
                        let rs = seq![n0] + rest;
                        assert(rs[0] == n0);
                        assert(forall|i: int|
                            1 <= i < instrs.len() ==> instrs[i] == (#[trigger] instrs.drop_first()[
                            i - 1]));
                        assert(forall|i: int| 1 <= i < rs.len() ==> rs[i] == rest[i - 1]);
                        assert forall|i: int|
                            0 <= i < instrs.len() implies spec_resolve_node(
                            #[trigger] instrs[i],
                            m,
                        ) is Ok by {
                            if i >= 1 {
                                assert(instrs[i] == instrs.drop_first()[i - 1]);
                            }
                        }
                        assert forall|i: int| 0 <= i < instrs.len() implies rs[i]
                            == spec_resolve_node(#[trigger] instrs[i], m)->Ok_0 by {
                            if i >= 1 {
                                assert(instrs[i] == instrs.drop_first()[i - 1]);
                                assert(rs[i] == rest[i - 1]);
                            }
                        }
                    },
                }
            },
        }
    }
}

/// Linking keeps a tree encodable: the data list is untouched and
/// resolution keeps every opcode.
pub proof fn lemma_spec_link_encodable(t: ProgramTreeV)
    requires
        encodable(t),
    ensures
        spec_link(t) matches Ok(t2) ==> encodable(t2),
{
    match spec_link(t) {
        Err(_) => {},
        Ok(t2) => {
            lemma_spec_resolve_all_elementwise(t.instructions, spec_symbols(t)->Ok_0);
            assert(forall|i: int|
                0 <= i < t2.instructions.len() ==> is_concrete(#[trigger] t2.instructions[i].op))
                by {
                assert forall|i: int| 0 <= i < t2.instructions.len() implies is_concrete(
                    #[trigger] t2.instructions[i].op,
                ) by {
                    assert(is_concrete(t.instructions[i].op));
                }
            }
        },
    }
}

proof fn lemma_resolve_all_err(instrs: Seq<InstructionNodeV>, m: Map<Seq<char>, u32>)
    ensures
        spec_resolve_all(instrs, m) matches Err(name) ==> {
            &&& exists|i: int|
                0 <= i < instrs.len() && (#[trigger] instrs[i]).imm_identifier == name
            &&& !m.contains_key(name)
            &&& name.len() > 0
        },
    decreases instrs.len(),
{
    if instrs.len() > 0 {
        match spec_resolve_node(instrs[0], m) {
            Err(name) => {
                assert(instrs[0].imm_identifier == name);
            },
            Ok(_) => {
                lemma_resolve_all_err(instrs.drop_first(), m);
                match spec_resolve_all(instrs.drop_first(), m) {
                    Err(name) => {
                        let i = choose|i: int|
                            0 <= i < instrs.drop_first().len() && (#[trigger] instrs.drop_first()[
                            i]).imm_identifier == name;
                        assert(instrs[i + 1].imm_identifier == name);
                    },
                    Ok(_) => {},
                }
            },
        }
    }
}

proof fn lemma_add_data_syms_keys(m: Map<Seq<char>, u32>, nodes: Seq<DataNodeV>)
    ensures
        spec_add_data_syms(m, nodes) matches Ok(m2) ==> forall|k: Seq<char>|
            #[trigger] m2.contains_key(k) <==> (m.contains_key(k) || exists|i: int|
                0 <= i < nodes.len() && (#[trigger] nodes[i]).identifier == k && k.len() > 0),
    decreases nodes.len(),
{
    if nodes.len() > 0 {
        let n = nodes[0];
        if n.identifier.len() == 0 {
            lemma_add_data_syms_keys(m, nodes.drop_first());
        } else if !m.contains_key(n.identifier) {
            lemma_add_data_syms_keys(m.insert(n.identifier, n.address), nodes.drop_first());
        }
        match spec_add_data_syms(m, nodes) {
            Err(_) => {},
            Ok(m2) => {
                assert forall|k: Seq<char>| #[trigger]
                    m2.contains_key(k) <==> (m.contains_key(k) || exists|i: int|
                        0 <= i < nodes.len() && (#[trigger] nodes[i]).identifier == k && k.len()
                            > 0) by {
                    if m2.contains_key(k) {
                        if !m.contains_key(k) {
                            if n.identifier.len() > 0 && !m.contains_key(n.identifier) && k
                                == n.identifier {
                                assert(nodes[0].identifier == k);
                            } else {
                                let i = choose|i: int|
                                    0 <= i < nodes.drop_first().len() && (
                                    #[trigger] nodes.drop_first()[i]).identifier == k && k.len()
                                        > 0;
                                assert(nodes[i + 1].identifier == k);
                            }
                        }
                    }
                    if !m2.contains_key(k) {
                        assert(!m.contains_key(k));
                        assert forall|i: int|
                            0 <= i < nodes.len() && (#[trigger] nodes[i]).identifier == k implies !(
                        k.len() > 0) by {
                            if i == 0 {
                            } else {
                                assert(nodes.drop_first()[i - 1].identifier == k);
                            }
                        }
                    }
                }
            },
        }
    }
}

proof fn lemma_add_instr_syms_keys(m: Map<Seq<char>, u32>, nodes: Seq<InstructionNodeV>)
    ensures
        spec_add_instr_syms(m, nodes) matches Ok(m2) ==> forall|k: Seq<char>|
            #[trigger] m2.contains_key(k) <==> (m.contains_key(k) || exists|i: int|
                0 <= i < nodes.len() && (#[trigger] nodes[i]).identifier == k && k.len() > 0),
    decreases nodes.len(),
{
    if nodes.len() > 0 {
        let n = nodes[0];
        if n.identifier.len() == 0 {
            lemma_add_instr_syms_keys(m, nodes.drop_first());
        } else if !m.contains_key(n.identifier) {
            lemma_add_instr_syms_keys(m.insert(n.identifier, n.address), nodes.drop_first());
        }
        match spec_add_instr_syms(m, nodes) {
            Err(_) => {},
            Ok(m2) => {
                assert forall|k: Seq<char>| #[trigger]
                    m2.contains_key(k) <==> (m.contains_key(k) || exists|i: int|
                        0 <= i < nodes.len() && (#[trigger] nodes[i]).identifier == k && k.len()
                            > 0) by {
                    if m2.contains_key(k) {
                        if !m.contains_key(k) {
                            if n.identifier.len() > 0 && !m.contains_key(n.identifier) && k
                                == n.identifier {
                                assert(nodes[0].identifier == k);
                            } else {
                                let i = choose|i: int|
                                    0 <= i < nodes.drop_first().len() && (
                                    #[trigger] nodes.drop_first()[i]).identifier == k && k.len()
                                        > 0;
                                assert(nodes[i + 1].identifier == k);
                            }
                        }
                    }
                    if !m2.contains_key(k) {
                        assert(!m.contains_key(k));
                        assert forall|i: int|
                            0 <= i < nodes.len() && (#[trigger] nodes[i]).identifier == k implies !(
                        k.len() > 0) by {
                            if i == 0 {
                            } else {
                                assert(nodes.drop_first()[i - 1].identifier == k);
                            }
                        }
                    }
                }
            },
        }
    }
}

proof fn lemma_add_data_syms_err(m: Map<Seq<char>, u32>, nodes: Seq<DataNodeV>)
    ensures
        spec_add_data_syms(m, nodes) matches Err(name) ==> {
            &&& name.len() > 0
            &&& exists|i: int| 0 <= i < nodes.len() && (#[trigger] nodes[i]).identifier == name
            &&& (m.contains_key(name) || exists|i: int, j: int|
                0 <= i < j < nodes.len() && (#[trigger] nodes[i]).identifier == name && (
                #[trigger] nodes[j]).identifier == name)
        },
    decreases nodes.len(),
{
    if nodes.len() > 0 {
        let n = nodes[0];
        let rest = nodes.drop_first();
        if n.identifier.len() == 0 {
            lemma_add_data_syms_err(m, rest);
            match spec_add_data_syms(m, rest) {
                Err(name) => {
                    let i = choose|i: int|
                        0 <= i < rest.len() && (#[trigger] rest[i]).identifier == name;
                    assert(nodes[i + 1].identifier == name);
                    if !m.contains_key(name) {
                        let (i2, j2) = choose|i2: int, j2: int|
                            0 <= i2 < j2 < rest.len() && (#[trigger] rest[i2]).identifier == name
                                && (#[trigger] rest[j2]).identifier == name;
                        assert(nodes[i2 + 1].identifier == name);
                        assert(nodes[j2 + 1].identifier == name);
                    }
                },
                Ok(_) => {},
            }
        } else if m.contains_key(n.identifier) {
            assert(nodes[0].identifier == n.identifier);
        } else {
            let m2 = m.insert(n.identifier, n.address);
            lemma_add_data_syms_err(m2, rest);
            match spec_add_data_syms(m2, rest) {
                Err(name) => {
                    let i = choose|i: int|
                        0 <= i < rest.len() && (#[trigger] rest[i]).identifier == name;
                    assert(nodes[i + 1].identifier == name);
                    if !m.contains_key(name) {
                        if m2.contains_key(name) {
                            assert(name == n.identifier);
                            assert(nodes[0].identifier == name);
                            assert(0 < i + 1 < nodes.len());
                        } else {
                            let (i2, j2) = choose|i2: int, j2: int|
                                0 <= i2 < j2 < rest.len() && (#[trigger] rest[i2]).identifier
                                    == name && (#[trigger] rest[j2]).identifier == name;
                            assert(nodes[i2 + 1].identifier == name);
                            assert(nodes[j2 + 1].identifier == name);
                        }
                    }
                },
                Ok(_) => {},
            }
        }
    }
}

proof fn lemma_add_instr_syms_err(m: Map<Seq<char>, u32>, nodes: Seq<InstructionNodeV>)
    ensures
        spec_add_instr_syms(m, nodes) matches Err(name) ==> {
            &&& name.len() > 0
            &&& exists|i: int| 0 <= i < nodes.len() && (#[trigger] nodes[i]).identifier == name
            &&& (m.contains_key(name) || exists|i: int, j: int|
                0 <= i < j < nodes.len() && (#[trigger] nodes[i]).identifier == name && (
                #[trigger] nodes[j]).identifier == name)
        },
    decreases nodes.len(),
{
    if nodes.len() > 0 {
        let n = nodes[0];
        let rest = nodes.drop_first();
        if n.identifier.len() == 0 {
            lemma_add_instr_syms_err(m, rest);
            match spec_add_instr_syms(m, rest) {
                Err(name) => {
                    let i = choose|i: int|
                        0 <= i < rest.len() && (#[trigger] rest[i]).identifier == name;
                    assert(nodes[i + 1].identifier == name);
                    if !m.contains_key(name) {
                        let (i2, j2) = choose|i2: int, j2: int|
                            0 <= i2 < j2 < rest.len() && (#[trigger] rest[i2]).identifier == name
                                && (#[trigger] rest[j2]).identifier == name;
                        assert(nodes[i2 + 1].identifier == name);
                        assert(nodes[j2 + 1].identifier == name);
                    }
                },
                Ok(_) => {},
            }
        } else if m.contains_key(n.identifier) {
            assert(nodes[0].identifier == n.identifier);
        } else {
            let m2 = m.insert(n.identifier, n.address);
            lemma_add_instr_syms_err(m2, rest);
            match spec_add_instr_syms(m2, rest) {
                Err(name) => {
                    let i = choose|i: int|
                        0 <= i < rest.len() && (#[trigger] rest[i]).identifier == name;
                    assert(nodes[i + 1].identifier == name);
                    if !m.contains_key(name) {
                        if m2.contains_key(name) {
                            assert(name == n.identifier);
                            assert(nodes[0].identifier == name);
                            assert(0 < i + 1 < nodes.len());
                        } else {
                            let (i2, j2) = choose|i2: int, j2: int|
                                0 <= i2 < j2 < rest.len() && (#[trigger] rest[i2]).identifier
                                    == name && (#[trigger] rest[j2]).identifier == name;
                            assert(nodes[i2 + 1].identifier == name);
                            assert(nodes[j2 + 1].identifier == name);
                        }
                    }
                },
                Ok(_) => {},
            }
        }
    }
}

/// A duplicate-label failure carries the exact name defined twice: two
/// distinct nodes of the tree are labelled with it.
pub proof fn lemma_redefined_identifier_exact(t: ProgramTreeV)
    ensures
        spec_link(t) matches Err(e) ==> (e matches LinkerErrorV::RedefinedIdentifier(name) ==> {
            ||| exists|i: int, j: int|
                0 <= i < j < t.data.len() && (#[trigger] t.data[i]).identifier == name && (
                #[trigger] t.data[j]).identifier == name
            ||| exists|i: int, j: int|
                0 <= i < t.data.len() && 0 <= j < t.instructions.len() && (
                #[trigger] t.data[i]).identifier == name && (
                #[trigger] t.instructions[j]).identifier == name
            ||| exists|i: int, j: int|
                0 <= i < j < t.instructions.len() && (#[trigger] t.instructions[i]).identifier
                    == name && (#[trigger] t.instructions[j]).identifier == name
        }),
{
    match spec_add_data_syms(Map::empty(), t.data) {
        Err(name) => {
            lemma_add_data_syms_err(Map::empty(), t.data);
        },
        Ok(m1) => {
            match spec_add_instr_syms(m1, t.instructions) {
                Err(name) => {
                    lemma_add_instr_syms_err(m1, t.instructions);
                    if m1.contains_key(name) {
                        lemma_add_data_syms_keys(Map::empty(), t.data);
                        let i = choose|i: int|
                            0 <= i < t.data.len() && (#[trigger] t.data[i]).identifier == name
                                && name.len() > 0;
                        let j = choose|j: int|
                            0 <= j < t.instructions.len() && (
                            #[trigger] t.instructions[j]).identifier == name;
                        assert(t.data[i].identifier == name && t.instructions[j].identifier
                            == name);
                    }
                },
                Ok(_) => {},
            }
        },
    }
}

/// An unknown-symbol failure carries the exact missing name: some
/// instruction uses it as a symbolic operand and no node of the tree is
/// labelled with it.
pub proof fn lemma_unknown_identifier_exact(t: ProgramTreeV)
    ensures
        spec_link(t) matches Err(e) ==> (e matches LinkerErrorV::UnknownIdentifier(name) ==> {
            &&& exists|i: int|
                0 <= i < t.instructions.len() && (#[trigger] t.instructions[i]).imm_identifier
                    == name
            &&& !crate::spec_has_label(t, name)
        }),
{
    match spec_symbols(t) {
        Err(_) => {},
        Ok(m) => {
            match spec_resolve_all(t.instructions, m) {
                Err(name) => {
                    lemma_resolve_all_err(t.instructions, m);
                    match spec_add_data_syms(Map::empty(), t.data) {
                        Err(_) => {},
                        Ok(m1) => {
                            lemma_add_data_syms_keys(Map::empty(), t.data);
                            lemma_add_instr_syms_keys(m1, t.instructions);
                            assert(!m.contains_key(name));
                            assert(!m1.contains_key(name));
                        },
                    }
                },
                Ok(_) => {},
            }
        },
    }
}

} // verus!
