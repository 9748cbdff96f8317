//! The IR builder, behind trusted declarations.
//!
//! The builder value of the outside IR crate is opaque to the verifier, so
//! its contents are named by `fn_log`: the sequence of builder calls made on
//! it, each captured as a `BuildEv`. Every wrapper appends exactly one event;
//! the rendered module text is a function of the function's name and its
//! event log.
use vstd::prelude::*;

verus! {

#[verifier::external_type_specification]
#[verifier::external_body]
pub struct ExFunction(qbe::Function);

/// One IR builder call on a function under construction, as the contracts
/// see it. Temporaries, labels and routine names are carried as text,
/// constants as integers.
pub enum BuildEv {
    /// A new empty block with the given label was appended.
    BlockMark(Seq<char>),
    /// `dest =w loadub %addr`: load the byte at `addr`, zero-extended.
    LoadUB(Seq<char>, Seq<char>),
    /// `dest =w add %dest, k`, assigned at byte width.
    AddB(Seq<char>, int),
    /// `dest =w sub %dest, k`, assigned at byte width.
    SubB(Seq<char>, int),
    /// `storeb %val, %addr`.
    StoreB(Seq<char>, Seq<char>),
    /// `dest =l add %dest, k`.
    AddL(Seq<char>, int),
    /// `dest =l sub %dest, k`.
    SubL(Seq<char>, int),
    /// `call $routine(ub %arg)`, result unused.
    CallArgUB(Seq<char>, Seq<char>),
    /// `dest =b call $routine()`.
    CallAssignB(Seq<char>, Seq<char>),
    /// `jnz %cond, @nonzero, @zero`.
    CondJump(Seq<char>, Seq<char>, Seq<char>),
    /// `dest =l alloc4 size`.
    AllocFour(Seq<char>, int),
    /// `ret` without a value.
    RetNone,
}

/// The builder calls made on `f` since its creation, in order.
pub uninterp spec fn fn_log(f: qbe::Function) -> Seq<BuildEv>;

/// The name `f` was created with.
pub uninterp spec fn fn_name_of(f: qbe::Function) -> Seq<char>;

/// Whether `f` is exactly described by `fn_name_of` and `fn_log`: created
/// with public linkage, no parameters and no return type, and built up only
/// by the calls the log records.
pub uninterp spec fn fn_modeled(f: qbe::Function) -> bool;

/// The text that rendering a module holding one modeled function of the
/// given name and event log produces.
pub uninterp spec fn module_text(name: Seq<char>, log: Seq<BuildEv>) -> Seq<char>;

/// The first builder call on the function opened a block, so instructions
/// have a block to land in.
pub open spec fn entry_open(log: Seq<BuildEv>) -> bool {
    log.len() > 0 && log[0] is BlockMark
}

/// Relies on `qbe::Function::new`: builds a function with the given name,
/// public linkage, no parameters, no return type and no blocks.
#[verifier::external_body]
pub fn new_public_function(name: &str) -> (f: qbe::Function)
    ensures
        fn_modeled(f),
        fn_name_of(f) == name@,
        fn_log(f) == Seq::<BuildEv>::empty(),
{
    qbe::Function::new(qbe::Linkage::public(), name, Vec::new(), None)
}

/// Relies on `qbe::Function::add_block`: appends a new empty block with this
/// label.
#[verifier::external_body]
pub fn add_block_mark(f: &mut qbe::Function, label: String)
    requires
        fn_modeled(*old(f)),
    ensures
        fn_modeled(*final(f)),
        fn_name_of(*final(f)) == fn_name_of(*old(f)),
        fn_log(*final(f)) == fn_log(*old(f)).push(BuildEv::BlockMark(label@)),
{
    f.add_block(label);
}

/// Relies on `qbe::Function::assign_instr` with a `loadub` instruction: the
/// load of the byte at `addr` into `dest` joins the last block.
#[verifier::external_body]
pub fn assign_load_ub(f: &mut qbe::Function, dest: &str, addr: &str)
    requires
        fn_modeled(*old(f)),
        entry_open(fn_log(*old(f))),
    ensures
        fn_modeled(*final(f)),
        fn_name_of(*final(f)) == fn_name_of(*old(f)),
        fn_log(*final(f)) == fn_log(*old(f)).push(BuildEv::LoadUB(dest@, addr@)),
{
    f.assign_instr(
        qbe::Value::Temporary(dest.to_owned()),
        qbe::Type::Byte,
        qbe::Instr::Load(qbe::Type::UnsignedByte, qbe::Value::Temporary(addr.to_owned())),
    );
}

/// Relies on `qbe::Function::assign_instr` with an `add` instruction at byte
/// width: `dest` plus the constant `k` joins the last block.
#[verifier::external_body]
pub fn assign_add_byte(f: &mut qbe::Function, dest: &str, k: u64)
    requires
        fn_modeled(*old(f)),
        entry_open(fn_log(*old(f))),
    ensures
        fn_modeled(*final(f)),
        fn_name_of(*final(f)) == fn_name_of(*old(f)),
        fn_log(*final(f)) == fn_log(*old(f)).push(BuildEv::AddB(dest@, k as int)),
{
    f.assign_instr(
        qbe::Value::Temporary(dest.to_owned()),
        qbe::Type::Byte,
        qbe::Instr::Add(qbe::Value::Temporary(dest.to_owned()), qbe::Value::Const(k)),
    );
}

/// Relies on `qbe::Function::assign_instr` with a `sub` instruction at byte
/// width.
#[verifier::external_body]
pub fn assign_sub_byte(f: &mut qbe::Function, dest: &str, k: u64)
    requires
        fn_modeled(*old(f)),
        entry_open(fn_log(*old(f))),
    ensures
        fn_modeled(*final(f)),
        fn_name_of(*final(f)) == fn_name_of(*old(f)),
        fn_log(*final(f)) == fn_log(*old(f)).push(BuildEv::SubB(dest@, k as int)),
{
    f.assign_instr(
        qbe::Value::Temporary(dest.to_owned()),
        qbe::Type::Byte,
        qbe::Instr::Sub(qbe::Value::Temporary(dest.to_owned()), qbe::Value::Const(k)),
    );
}

/// Relies on `qbe::Function::add_instr` with a `storeb` instruction: store
/// the temporary `val` at the address in `addr`.
#[verifier::external_body]
pub fn add_store_byte(f: &mut qbe::Function, addr: &str, val: &str)
    requires
        fn_modeled(*old(f)),
        entry_open(fn_log(*old(f))),
    ensures
        fn_modeled(*final(f)),
        fn_name_of(*final(f)) == fn_name_of(*old(f)),
        fn_log(*final(f)) == fn_log(*old(f)).push(BuildEv::StoreB(addr@, val@)),
{
    f.add_instr(qbe::Instr::Store(
        qbe::Type::Byte,
        qbe::Value::Temporary(addr.to_owned()),
        qbe::Value::Temporary(val.to_owned()),
    ));
}

/// Relies on `qbe::Function::assign_instr` with an `add` instruction at long
/// width.
#[verifier::external_body]
pub fn assign_add_long(f: &mut qbe::Function, dest: &str, k: u64)
    requires
        fn_modeled(*old(f)),
        entry_open(fn_log(*old(f))),
    ensures
        fn_modeled(*final(f)),
        fn_name_of(*final(f)) == fn_name_of(*old(f)),
        fn_log(*final(f)) == fn_log(*old(f)).push(BuildEv::AddL(dest@, k as int)),
{
    f.assign_instr(
        qbe::Value::Temporary(dest.to_owned()),
        qbe::Type::Long,
        qbe::Instr::Add(qbe::Value::Temporary(dest.to_owned()), qbe::Value::Const(k)),
    );
}

/// Relies on `qbe::Function::assign_instr` with a `sub` instruction at long
/// width.
#[verifier::external_body]
pub fn assign_sub_long(f: &mut qbe::Function, dest: &str, k: u64)
    requires
        fn_modeled(*old(f)),
        entry_open(fn_log(*old(f))),
    ensures
        fn_modeled(*final(f)),
        fn_name_of(*final(f)) == fn_name_of(*old(f)),
        fn_log(*final(f)) == fn_log(*old(f)).push(BuildEv::SubL(dest@, k as int)),
{
    f.assign_instr(
        qbe::Value::Temporary(dest.to_owned()),
        qbe::Type::Long,
        qbe::Instr::Sub(qbe::Value::Temporary(dest.to_owned()), qbe::Value::Const(k)),
    );
}

/// Relies on `qbe::Function::add_instr` with a `call` instruction: call the
/// routine with the temporary `arg` as its one unsigned-byte argument.
#[verifier::external_body]
pub fn add_call_arg_ub(f: &mut qbe::Function, routine: &str, arg: &str)
    requires
        fn_modeled(*old(f)),
        entry_open(fn_log(*old(f))),
    ensures
        fn_modeled(*final(f)),
        fn_name_of(*final(f)) == fn_name_of(*old(f)),
        fn_log(*final(f)) == fn_log(*old(f)).push(BuildEv::CallArgUB(routine@, arg@)),
{
    f.add_instr(qbe::Instr::Call(
        routine.to_owned(),
        vec![(qbe::Type::UnsignedByte, qbe::Value::Temporary(arg.to_owned()))],
        None,
    ));
}

/// Relies on `qbe::Function::assign_instr` with a `call` instruction: call
/// the routine with no arguments, assigning the result to `dest` at byte
/// width.
#[verifier::external_body]
pub fn assign_call_byte(f: &mut qbe::Function, dest: &str, routine: &str)
    requires
        fn_modeled(*old(f)),
        entry_open(fn_log(*old(f))),
    ensures
        fn_modeled(*final(f)),
        fn_name_of(*final(f)) == fn_name_of(*old(f)),
        fn_log(*final(f)) == fn_log(*old(f)).push(BuildEv::CallAssignB(dest@, routine@)),
{
    f.assign_instr(
        qbe::Value::Temporary(dest.to_owned()),
        qbe::Type::Byte,
        qbe::Instr::Call(routine.to_owned(), Vec::new(), None),
    );
}

/// Relies on `qbe::Function::add_instr` with a `jnz` instruction: branch on
/// the temporary `cond` to `nonzero` or `zero`.
#[verifier::external_body]
pub fn add_cond_jump(f: &mut qbe::Function, cond: &str, nonzero: String, zero: String)
    requires
        fn_modeled(*old(f)),
        entry_open(fn_log(*old(f))),
    ensures
        fn_modeled(*final(f)),
        fn_name_of(*final(f)) == fn_name_of(*old(f)),
        fn_log(*final(f)) == fn_log(*old(f)).push(
            BuildEv::CondJump(cond@, nonzero@, zero@),
        ),
{
    f.add_instr(qbe::Instr::Jnz(
        qbe::Value::Temporary(cond.to_owned()),
        nonzero,
        zero,
    ));
}

/// Relies on `qbe::Function::assign_instr` with an `alloc4` instruction:
/// allocate `size` bytes and assign the base address to `dest` at long
/// width.
#[verifier::external_body]
pub fn assign_alloc4(f: &mut qbe::Function, dest: &str, size: u32)
    requires
        fn_modeled(*old(f)),
        entry_open(fn_log(*old(f))),
    ensures
        fn_modeled(*final(f)),
        fn_name_of(*final(f)) == fn_name_of(*old(f)),
        fn_log(*final(f)) == fn_log(*old(f)).push(BuildEv::AllocFour(dest@, size as int)),
{
    f.assign_instr(
        qbe::Value::Temporary(dest.to_owned()),
        qbe::Type::Long,
        qbe::Instr::Alloc4(size),
    );
}

/// Relies on `qbe::Function::add_instr` with a `ret` instruction: return
/// without a value.
#[verifier::external_body]
pub fn add_ret(f: &mut qbe::Function)
    requires
        fn_modeled(*old(f)),
        entry_open(fn_log(*old(f))),
    ensures
        fn_modeled(*final(f)),
        fn_name_of(*final(f)) == fn_name_of(*old(f)),
        fn_log(*final(f)) == fn_log(*old(f)).push(BuildEv::RetNone),
{
    f.add_instr(qbe::Instr::Ret(None));
}

/// Relies on `qbe::Module::new`, `qbe::Module::add_function` and the
/// `Display` rendering of the qbe crate: the text of a module holding
/// exactly one function is determined by that function's name and builder
/// calls, and rendering a modeled function never fails.
#[verifier::external_body]
pub fn render_module(f: qbe::Function) -> (r: String)
    requires
        fn_modeled(f),
    ensures
        r@ == module_text(fn_name_of(f), fn_log(f)),
{
    let mut m = qbe::Module::new();
    m.add_function(f);
    format!("{}", m)
}

} // verus!
