//! Two small shaders that draw a texture over the whole target, as SPIR-V modules.
//!
//! An instruction is an operation, the type and number of its result where it has one, and
//! its operands, each a word.  A module is a header and its instructions, in the order
//! that the format prescribes.

use rspirv::binary::Assemble;
use vstd::prelude::*;

verus! {

pub const OP_MEMORY_MODEL: u32 = 14;
pub const OP_ENTRY_POINT: u32 = 15;
pub const OP_EXECUTION_MODE: u32 = 16;
pub const OP_CAPABILITY: u32 = 17;
pub const OP_TYPE_VOID: u32 = 19;
pub const OP_TYPE_BOOL: u32 = 20;
pub const OP_TYPE_INT: u32 = 21;
pub const OP_TYPE_FLOAT: u32 = 22;
pub const OP_TYPE_VECTOR: u32 = 23;
pub const OP_TYPE_IMAGE: u32 = 25;
pub const OP_TYPE_SAMPLED_IMAGE: u32 = 27;
pub const OP_TYPE_STRUCT: u32 = 30;
pub const OP_TYPE_POINTER: u32 = 32;
pub const OP_TYPE_FUNCTION: u32 = 33;
pub const OP_CONSTANT: u32 = 43;
pub const OP_FUNCTION: u32 = 54;
pub const OP_FUNCTION_END: u32 = 56;
pub const OP_VARIABLE: u32 = 59;
pub const OP_LOAD: u32 = 61;
pub const OP_STORE: u32 = 62;
pub const OP_ACCESS_CHAIN: u32 = 65;
pub const OP_DECORATE: u32 = 71;
pub const OP_MEMBER_DECORATE: u32 = 72;
pub const OP_COMPOSITE_CONSTRUCT: u32 = 80;
pub const OP_IMAGE_SAMPLE_IMPLICIT_LOD: u32 = 87;
pub const OP_F_ADD: u32 = 129;
pub const OP_F_MUL: u32 = 133;
pub const OP_SELECT: u32 = 169;
pub const OP_I_EQUAL: u32 = 170;
pub const OP_LABEL: u32 = 248;
pub const OP_RETURN: u32 = 253;

pub const STORAGE_INPUT: u32 = 1;
pub const STORAGE_OUTPUT: u32 = 3;

/// An operation that the shaders use.
pub open spec fn is_operation(op: u32) -> bool {
    ||| 14 <= op <= 17
    ||| 19 <= op <= 23
    ||| op == OP_TYPE_IMAGE
    ||| op == OP_TYPE_SAMPLED_IMAGE
    ||| op == OP_TYPE_STRUCT
    ||| op == OP_TYPE_POINTER
    ||| op == OP_TYPE_FUNCTION
    ||| op == OP_CONSTANT
    ||| op == OP_FUNCTION
    ||| op == OP_FUNCTION_END
    ||| op == OP_VARIABLE
    ||| op == OP_LOAD
    ||| op == OP_STORE
    ||| op == OP_ACCESS_CHAIN
    ||| op == OP_DECORATE
    ||| op == OP_MEMBER_DECORATE
    ||| op == OP_COMPOSITE_CONSTRUCT
    ||| op == OP_IMAGE_SAMPLE_IMPLICIT_LOD
    ||| op == OP_F_ADD
    ||| op == OP_F_MUL
    ||| op == OP_SELECT
    ||| op == OP_I_EQUAL
    ||| op == OP_LABEL
    ||| op == OP_RETURN
}

/// An instruction.
#[verifier::ext_equal]
pub struct Inst {
    pub op: u32,
    pub ty: Option<u32>,
    pub id: Option<u32>,
    pub args: Seq<u32>,
}

/// An instruction without a result.
pub open spec fn stmt(op: u32, args: Seq<u32>) -> Inst {
    Inst { op, ty: None, id: None, args }
}

/// An instruction that defines a name without a type.
pub open spec fn decl(op: u32, id: u32, args: Seq<u32>) -> Inst {
    Inst { op, ty: None, id: Some(id), args }
}

/// An instruction that defines a value.
pub open spec fn value(op: u32, ty: u32, id: u32, args: Seq<u32>) -> Inst {
    Inst { op, ty: Some(ty), id: Some(id), args }
}

/// The word of a part that may be missing.
pub open spec fn optional(w: Option<u32>) -> Seq<u32> {
    match w {
        Some(w) => seq![w],
        None => Seq::empty(),
    }
}

/// The words of an instruction: the operation, with the number of words above it, and the
/// parts in order.
pub open spec fn inst_words(i: Inst) -> Seq<u32> {
    let tail = optional(i.ty) + optional(i.id) + i.args;
    seq![(i.op + 65536 * (1 + tail.len())) as u32] + tail
}

/// The words of instructions, one after the other.
pub open spec fn flat(list: Seq<Inst>) -> Seq<u32>
    decreases list.len(),
{
    if list.len() == 0 {
        Seq::empty()
    } else {
        flat(list.drop_last()) + inst_words(list.last())
    }
}

/// The header of a module of version 1.3 whose results are numbered below `bound`.
pub open spec fn header(bound: u32) -> Seq<u32> {
    seq![0x0723_0203u32, 0x0001_0300u32, 0x000F_0000u32, bound, 0u32]
}

/// Assemble an instruction.
///
/// This is `assemble` of `rspirv::dr::Instruction`, made by its `new` from the operation
/// and from operands that are literal words.  It is trusted to give the operation with
/// the number of words in the upper half, then the type and the number of the result where
/// there are any, then the operands.
#[verifier::external_body]
fn assemble_instruction(op: u32, ty: Option<u32>, id: Option<u32>, args: &Vec<u32>) -> (words: Vec<
    u32,
>)
    requires
        is_operation(op),
        args@.len() <= 100,
    ensures
        words@ == inst_words(Inst { op, ty, id, args: args@ }),
{
    let code = rspirv::spirv::Op::from_u32(op).unwrap();
    let operands = args.iter().map(|w| rspirv::dr::Operand::LiteralBit32(*w)).collect();
    rspirv::dr::Instruction::new(code, ty, id, operands).assemble()
}

/// Assemble a header.
///
/// This is `assemble` of `rspirv::dr::ModuleHeader`, made by its `new` and given version
/// 1.3 by its `set_version`.  It is trusted to give the magic number, the version, the
/// number of the generator, the bound and a zero.
#[verifier::external_body]
fn assemble_header(bound: u32) -> (words: Vec<u32>)
    ensures
        words@ == header(bound),
{
    let mut h = rspirv::dr::ModuleHeader::new(bound);
    h.set_version(1, 3);
    h.assemble()
}

/// A module that is being written.
struct Emitter {
    words: Vec<u32>,
    list: Ghost<Seq<Inst>>,
    bound: Ghost<u32>,
}

impl Emitter {
    spec fn wf(&self) -> bool {
        self.words@ == header(self.bound@) + flat(self.list@)
    }

    fn new(bound: u32) -> (e: Self)
        ensures
            e.wf(),
            e.bound@ == bound,
            e.list@ == Seq::<Inst>::empty(),
    {
        let e = Emitter {
            words: assemble_header(bound),
            list: Ghost(Seq::empty()),
            bound: Ghost(bound),
        };
        assert(e.words@ =~= header(bound) + flat(e.list@));
        e
    }

    fn put(&mut self, op: u32, ty: Option<u32>, id: Option<u32>, args: Vec<u32>)
        requires
            old(self).wf(),
            is_operation(op),
            args@.len() <= 100,
        ensures
            final(self).wf(),
            final(self).bound == old(self).bound,
            final(self).list@ == old(self).list@.push(Inst { op, ty, id, args: args@ }),
    {
        let words = assemble_instruction(op, ty, id, &args);
        let ghost inst = Inst { op, ty, id, args: args@ };
        let mut i: usize = 0;
        assert(self.words@ =~= old(self).words@ + words@.take(0));
        while i < words.len()
            invariant
                i <= words@.len(),
                self.list == old(self).list,
                self.bound == old(self).bound,
                self.words@ == old(self).words@ + words@.take(i as int),
            decreases words@.len() - i,
        {
            self.words.push(words[i]);
            i = i + 1;
            assert(self.words@ =~= old(self).words@ + words@.take(i as int));
        }
        assert(words@.take(i as int) =~= words@);
        self.list = Ghost(self.list@.push(inst));
        proof {
            assert(self.list@.drop_last() =~= old(self).list@);
            assert(self.words@ =~= header(self.bound@) + flat(self.list@));
        }
    }

    fn stmt(&mut self, op: u32, args: Vec<u32>)
        requires
            old(self).wf(),
            is_operation(op),
            args@.len() <= 100,
        ensures
            final(self).wf(),
            final(self).bound == old(self).bound,
            final(self).list@ == old(self).list@.push(stmt(op, args@)),
    {
        self.put(op, None, None, args);
    }

    fn decl(&mut self, op: u32, id: u32, args: Vec<u32>)
        requires
            old(self).wf(),
            is_operation(op),
            args@.len() <= 100,
        ensures
            final(self).wf(),
            final(self).bound == old(self).bound,
            final(self).list@ == old(self).list@.push(decl(op, id, args@)),
    {
        self.put(op, None, Some(id), args);
    }

    fn value(&mut self, op: u32, ty: u32, id: u32, args: Vec<u32>)
        requires
            old(self).wf(),
            is_operation(op),
            args@.len() <= 100,
        ensures
            final(self).wf(),
            final(self).bound == old(self).bound,
            final(self).list@ == old(self).list@.push(value(op, ty, id, args@)),
    {
        self.put(op, Some(ty), Some(id), args);
    }
}

/// The fragment shader: it samples the texture at set 0, binding 0 where its input says,
/// and writes the texel.  The texture is neither input nor output, and stays off the
/// interface of the entry point.
pub open spec fn textured_fs() -> Seq<Inst> {
    fs_preamble() + fs_types() + fs_body()
}

/// What the fragment shader needs, its entry point, and how its variables are bound.
pub open spec fn fs_preamble() -> Seq<Inst> {
    seq![
        stmt(OP_CAPABILITY, seq![1]),
        stmt(OP_MEMORY_MODEL, seq![0, 1]),
        stmt(OP_ENTRY_POINT, seq![4, 14, 0x6E69_616D, 0, 7, 9]),
        stmt(OP_EXECUTION_MODE, seq![14, 7]),
        stmt(OP_DECORATE, seq![7, 30, 0]),
        stmt(OP_DECORATE, seq![9, 30, 0]),
        stmt(OP_DECORATE, seq![13, 34, 0]),
        stmt(OP_DECORATE, seq![13, 33, 0]),
    ]
}

/// The types and variables of the fragment shader.
pub open spec fn fs_types() -> Seq<Inst> {
    seq![
        decl(OP_TYPE_VOID, 1, seq![]),
        decl(OP_TYPE_FLOAT, 2, seq![32]),
        decl(OP_TYPE_VECTOR, 3, seq![2, 2]),
        decl(OP_TYPE_VECTOR, 4, seq![2, 4]),
        decl(OP_TYPE_FUNCTION, 5, seq![1]),
        decl(OP_TYPE_POINTER, 6, seq![1, 3]),
        value(OP_VARIABLE, 6, 7, seq![1]),
        decl(OP_TYPE_POINTER, 8, seq![3, 4]),
        value(OP_VARIABLE, 8, 9, seq![3]),
        decl(OP_TYPE_IMAGE, 10, seq![2, 1, 0, 0, 0, 1, 0]),
        decl(OP_TYPE_SAMPLED_IMAGE, 11, seq![10]),
        decl(OP_TYPE_POINTER, 12, seq![0, 11]),
        value(OP_VARIABLE, 12, 13, seq![0]),
    ]
}

/// The code of the fragment shader.
pub open spec fn fs_body() -> Seq<Inst> {
    seq![
        value(OP_FUNCTION, 1, 14, seq![0, 5]),
        decl(OP_LABEL, 15, seq![]),
        value(OP_LOAD, 3, 16, seq![7]),
        value(OP_LOAD, 11, 17, seq![13]),
        value(OP_IMAGE_SAMPLE_IMPLICIT_LOD, 4, 18, seq![17, 16]),
        stmt(OP_STORE, seq![9, 18]),
        stmt(OP_RETURN, seq![]),
        stmt(OP_FUNCTION_END, seq![]),
    ]
}

/// The module of the fragment shader that samples a texture.
pub fn build_textured_fs() -> (words: Vec<u32>)
    ensures
        words@ == header(19) + flat(textured_fs()),
{
    let mut e = Emitter::new(19);
    e.stmt(OP_CAPABILITY, vec![1]);
    e.stmt(OP_MEMORY_MODEL, vec![0, 1]);
    e.stmt(OP_ENTRY_POINT, vec![4, 14, 0x6E69_616D, 0, 7, 9]);
    e.stmt(OP_EXECUTION_MODE, vec![14, 7]);
    e.stmt(OP_DECORATE, vec![7, 30, 0]);
    e.stmt(OP_DECORATE, vec![9, 30, 0]);
    e.stmt(OP_DECORATE, vec![13, 34, 0]);
    e.stmt(OP_DECORATE, vec![13, 33, 0]);
    assert(e.list@ =~~= fs_preamble());
    let ghost a = e.list@;
    e.decl(OP_TYPE_VOID, 1, vec![]);
    e.decl(OP_TYPE_FLOAT, 2, vec![32]);
    e.decl(OP_TYPE_VECTOR, 3, vec![2, 2]);
    e.decl(OP_TYPE_VECTOR, 4, vec![2, 4]);
    e.decl(OP_TYPE_FUNCTION, 5, vec![1]);
    e.decl(OP_TYPE_POINTER, 6, vec![1, 3]);
    e.value(OP_VARIABLE, 6, 7, vec![1]);
    e.decl(OP_TYPE_POINTER, 8, vec![3, 4]);
    e.value(OP_VARIABLE, 8, 9, vec![3]);
    e.decl(OP_TYPE_IMAGE, 10, vec![2, 1, 0, 0, 0, 1, 0]);
    e.decl(OP_TYPE_SAMPLED_IMAGE, 11, vec![10]);
    e.decl(OP_TYPE_POINTER, 12, vec![0, 11]);
    e.value(OP_VARIABLE, 12, 13, vec![0]);
    assert(e.list@ =~~= a + fs_types());
    let ghost b = e.list@;
    e.value(OP_FUNCTION, 1, 14, vec![0, 5]);
    e.decl(OP_LABEL, 15, vec![]);
    e.value(OP_LOAD, 3, 16, vec![7]);
    e.value(OP_LOAD, 11, 17, vec![13]);
    e.value(OP_IMAGE_SAMPLE_IMPLICIT_LOD, 4, 18, vec![17, 16]);
    e.stmt(OP_STORE, vec![9, 18]);
    e.stmt(OP_RETURN, vec![]);
    e.stmt(OP_FUNCTION_END, vec![]);
    assert(e.list@ =~~= b + fs_body());
    assert(e.list@ =~= textured_fs());
    e.words
}

/// The vertex shader: one triangle that covers the target, and where on the texture each
/// corner lies.  The corner numbered 2 lies at 3 to the right and the corner numbered 1 at
/// 3 up, the others at -1; the texture is shown where both lie between -1 and 1.
pub open spec fn textured_vs() -> Seq<Inst> {
    vs_preamble() + vs_types() + vs_constants() + vs_body()
}

/// What the vertex shader needs, its entry point, and what its variables are.
pub open spec fn vs_preamble() -> Seq<Inst> {
    seq![
        stmt(OP_CAPABILITY, seq![1]),
        stmt(OP_MEMORY_MODEL, seq![0, 1]),
        stmt(OP_ENTRY_POINT, seq![0, 24, 0x6E69_616D, 0, 8, 11, 13]),
        stmt(OP_DECORATE, seq![8, 11, 42]),
        stmt(OP_DECORATE, seq![9, 2]),
        stmt(OP_MEMBER_DECORATE, seq![9, 0, 11, 0]),
        stmt(OP_DECORATE, seq![13, 30, 0]),
    ]
}

/// The types and variables of the vertex shader.
pub open spec fn vs_types() -> Seq<Inst> {
    seq![
        decl(OP_TYPE_VOID, 1, seq![]),
        decl(OP_TYPE_FLOAT, 2, seq![32]),
        decl(OP_TYPE_INT, 3, seq![32, 1]),
        decl(OP_TYPE_VECTOR, 4, seq![2, 2]),
        decl(OP_TYPE_VECTOR, 5, seq![2, 4]),
        decl(OP_TYPE_FUNCTION, 6, seq![1]),
        decl(OP_TYPE_POINTER, 7, seq![1, 3]),
        value(OP_VARIABLE, 7, 8, seq![1]),
        decl(OP_TYPE_STRUCT, 9, seq![5]),
        decl(OP_TYPE_POINTER, 10, seq![3, 9]),
        value(OP_VARIABLE, 10, 11, seq![3]),
        decl(OP_TYPE_POINTER, 12, seq![3, 4]),
        value(OP_VARIABLE, 12, 13, seq![3]),
    ]
}

/// The constants of the vertex shader, and the types they and its code need.
pub open spec fn vs_constants() -> Seq<Inst> {
    seq![
        value(OP_CONSTANT, 2, 14, seq![0]),
        value(OP_CONSTANT, 2, 15, seq![0x3F80_0000]),
        value(OP_CONSTANT, 2, 16, seq![0xBF80_0000]),
        value(OP_CONSTANT, 2, 17, seq![0x4000_0000]),
        value(OP_CONSTANT, 2, 18, seq![0x4040_0000]),
        decl(OP_TYPE_INT, 19, seq![32, 0]),
        value(OP_CONSTANT, 19, 20, seq![0]),
        value(OP_CONSTANT, 3, 21, seq![1]),
        value(OP_CONSTANT, 3, 22, seq![2]),
        decl(OP_TYPE_BOOL, 23, seq![]),
        decl(OP_TYPE_POINTER, 32, seq![3, 5]),
        value(OP_CONSTANT, 2, 34, seq![0x3F00_0000]),
    ]
}

/// The code of the vertex shader.
pub open spec fn vs_body() -> Seq<Inst> {
    seq![
        value(OP_FUNCTION, 1, 24, seq![0, 6]),
        decl(OP_LABEL, 25, seq![]),
        value(OP_LOAD, 3, 26, seq![8]),
        value(OP_I_EQUAL, 23, 27, seq![26, 22]),
        value(OP_I_EQUAL, 23, 28, seq![26, 21]),
        value(OP_SELECT, 2, 29, seq![27, 18, 16]),
        value(OP_SELECT, 2, 30, seq![28, 18, 16]),
        value(OP_COMPOSITE_CONSTRUCT, 5, 31, seq![29, 30, 14, 15]),
        value(OP_ACCESS_CHAIN, 32, 33, seq![11, 20]),
        stmt(OP_STORE, seq![33, 31]),
        value(OP_F_MUL, 2, 35, seq![29, 34]),
        value(OP_F_ADD, 2, 36, seq![35, 34]),
        value(OP_F_MUL, 2, 37, seq![30, 34]),
        value(OP_F_ADD, 2, 38, seq![37, 34]),
        value(OP_COMPOSITE_CONSTRUCT, 4, 39, seq![36, 38]),
        stmt(OP_STORE, seq![13, 39]),
        stmt(OP_RETURN, seq![]),
        stmt(OP_FUNCTION_END, seq![]),
    ]
}

/// Write `vs_preamble`.
fn emit_vs_preamble(e: &mut Emitter)
    requires
        old(e).wf(),
    ensures
        final(e).wf(),
        final(e).bound == old(e).bound,
        final(e).list@ == old(e).list@ + vs_preamble(),
{
    e.stmt(OP_CAPABILITY, vec![1]);
    e.stmt(OP_MEMORY_MODEL, vec![0, 1]);
    e.stmt(OP_ENTRY_POINT, vec![0, 24, 0x6E69_616D, 0, 8, 11, 13]);
    e.stmt(OP_DECORATE, vec![8, 11, 42]);
    e.stmt(OP_DECORATE, vec![9, 2]);
    e.stmt(OP_MEMBER_DECORATE, vec![9, 0, 11, 0]);
    e.stmt(OP_DECORATE, vec![13, 30, 0]);
    assert(e.list@ =~~= old(e).list@ + vs_preamble());
}

/// Write `vs_types`.
fn emit_vs_types(e: &mut Emitter)
    requires
        old(e).wf(),
    ensures
        final(e).wf(),
        final(e).bound == old(e).bound,
        final(e).list@ == old(e).list@ + vs_types(),
{
    e.decl(OP_TYPE_VOID, 1, vec![]);
    e.decl(OP_TYPE_FLOAT, 2, vec![32]);
    e.decl(OP_TYPE_INT, 3, vec![32, 1]);
    e.decl(OP_TYPE_VECTOR, 4, vec![2, 2]);
    e.decl(OP_TYPE_VECTOR, 5, vec![2, 4]);
    e.decl(OP_TYPE_FUNCTION, 6, vec![1]);
    e.decl(OP_TYPE_POINTER, 7, vec![1, 3]);
    e.value(OP_VARIABLE, 7, 8, vec![1]);
    e.decl(OP_TYPE_STRUCT, 9, vec![5]);
    e.decl(OP_TYPE_POINTER, 10, vec![3, 9]);
    e.value(OP_VARIABLE, 10, 11, vec![3]);
    e.decl(OP_TYPE_POINTER, 12, vec![3, 4]);
    e.value(OP_VARIABLE, 12, 13, vec![3]);
    assert(e.list@ =~~= old(e).list@ + vs_types());
}

/// Write `vs_constants`.
fn emit_vs_constants(e: &mut Emitter)
    requires
        old(e).wf(),
    ensures
        final(e).wf(),
        final(e).bound == old(e).bound,
        final(e).list@ == old(e).list@ + vs_constants(),
{
    e.value(OP_CONSTANT, 2, 14, vec![0]);
    e.value(OP_CONSTANT, 2, 15, vec![0x3F80_0000]);
    e.value(OP_CONSTANT, 2, 16, vec![0xBF80_0000]);
    e.value(OP_CONSTANT, 2, 17, vec![0x4000_0000]);
    e.value(OP_CONSTANT, 2, 18, vec![0x4040_0000]);
    e.decl(OP_TYPE_INT, 19, vec![32, 0]);
    e.value(OP_CONSTANT, 19, 20, vec![0]);
    e.value(OP_CONSTANT, 3, 21, vec![1]);
    e.value(OP_CONSTANT, 3, 22, vec![2]);
    e.decl(OP_TYPE_BOOL, 23, vec![]);
    e.decl(OP_TYPE_POINTER, 32, vec![3, 5]);
    e.value(OP_CONSTANT, 2, 34, vec![0x3F00_0000]);
    assert(e.list@ =~~= old(e).list@ + vs_constants());
}

/// Write `vs_body`.
fn emit_vs_body(e: &mut Emitter)
    requires
        old(e).wf(),
    ensures
        final(e).wf(),
        final(e).bound == old(e).bound,
        final(e).list@ == old(e).list@ + vs_body(),
{
    e.value(OP_FUNCTION, 1, 24, vec![0, 6]);
    e.decl(OP_LABEL, 25, vec![]);
    e.value(OP_LOAD, 3, 26, vec![8]);
    e.value(OP_I_EQUAL, 23, 27, vec![26, 22]);
    e.value(OP_I_EQUAL, 23, 28, vec![26, 21]);
    e.value(OP_SELECT, 2, 29, vec![27, 18, 16]);
    e.value(OP_SELECT, 2, 30, vec![28, 18, 16]);
    e.value(OP_COMPOSITE_CONSTRUCT, 5, 31, vec![29, 30, 14, 15]);
    e.value(OP_ACCESS_CHAIN, 32, 33, vec![11, 20]);
    e.stmt(OP_STORE, vec![33, 31]);
    e.value(OP_F_MUL, 2, 35, vec![29, 34]);
    e.value(OP_F_ADD, 2, 36, vec![35, 34]);
    e.value(OP_F_MUL, 2, 37, vec![30, 34]);
    e.value(OP_F_ADD, 2, 38, vec![37, 34]);
    e.value(OP_COMPOSITE_CONSTRUCT, 4, 39, vec![36, 38]);
    e.stmt(OP_STORE, vec![13, 39]);
    e.stmt(OP_RETURN, vec![]);
    e.stmt(OP_FUNCTION_END, vec![]);
    assert(e.list@ =~~= old(e).list@ + vs_body());
}

/// The module of the vertex shader that covers the target.
pub fn build_textured_vs() -> (words: Vec<u32>)
    ensures
        words@ == header(40) + flat(textured_vs()),
{
    let mut e = Emitter::new(40);
    emit_vs_preamble(&mut e);
    emit_vs_types(&mut e);
    emit_vs_constants(&mut e);
    emit_vs_body(&mut e);
    assert(e.list@ =~= textured_vs());
    e.words
}

/// No result is defined twice, and all are numbered below the bound.
pub open spec fn is_numbered(list: Seq<Inst>, bound: u32) -> bool {
    &&& forall|i: int|
        0 <= i < list.len() ==> ((#[trigger] list[i]).id matches Some(id) ==> 0 < id < bound)
    &&& forall|i: int, j: int|
        0 <= i < j < list.len() && (#[trigger] list[i]).id is Some ==> list[i].id != (
        #[trigger] list[j]).id
}

/// In both shaders no result is defined twice, and all are numbered below the bound that
/// the header states.
pub proof fn law_results_are_numbered_once()
    ensures
        is_numbered(textured_fs(), 19),
        is_numbered(textured_vs(), 40),
{
}

/// The variables that the entry point lists: they follow its stage, its function and the
/// two words of its name.
pub open spec fn interface(entry: Inst) -> Seq<u32> {
    entry.args.skip(4)
}

/// The entry point lists the inputs and the outputs, and no other variable.
pub open spec fn lists_inputs_and_outputs(list: Seq<Inst>, entry: int) -> bool {
    &&& 0 <= entry < list.len()
    &&& list[entry].op == OP_ENTRY_POINT
    &&& forall|i: int|
        0 <= i < list.len() && (#[trigger] list[i]).op == OP_VARIABLE ==> list[i].id is Some && (
        interface(list[entry]).contains(list[i].id->0) <==> list[i].args[0] == STORAGE_INPUT
            || list[i].args[0] == STORAGE_OUTPUT)
}

/// In this version of the format an entry point lists the inputs and outputs of the
/// shader, and nothing else: not the texture that is sampled.
pub proof fn law_interface_is_inputs_and_outputs()
    ensures
        lists_inputs_and_outputs(textured_fs(), 2),
        lists_inputs_and_outputs(textured_vs(), 2),
{
    let f = interface(textured_fs()[2]);
    assert(f =~= seq![7u32, 9u32]);
    assert(f[0] == 7 && f[1] == 9);
    let v = interface(textured_vs()[2]);
    assert(v =~= seq![8u32, 11u32, 13u32]);
    assert(v[0] == 8 && v[1] == 11 && v[2] == 13);
}

} // verus!
