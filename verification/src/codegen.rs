//! The code generator: from statements to x86-64 assembly text in the
//! syntax of the GNU assembler, for the System V calling convention.
//!
//! What is generated is defined by [`generate`], a spec function from the
//! state of a generator and the statements to the new state and the text.
//! [`CodeGen`] is proved to compute the same.

use crate::ast::Expr;
use crate::ast::ExprView;
use crate::ast::FunctionDecl;
use crate::ast::Parameter;
use crate::ast::ParameterView;
use crate::ast::Return;
use crate::ast::Stmt;
use crate::ast::StmtView;
use crate::ast::VariableDecl;
use crate::ast::exprs_view;
use crate::ast::params_view;
use crate::ast::stmts_view;
use crate::text::char_is_control;
use crate::text::chars_of;
use crate::text::decimal;
use crate::text::hex_pair;
use crate::text::is_control;
use crate::text::push_decimal;
use crate::text::push_hex_pair;
use crate::text::push_signed_decimal;
use crate::text::signed_decimal;
use crate::text::text_eq;
use vstd::hash_map::StringHashMap;
use vstd::prelude::*;
use vstd::string::StringExecFns;
use vstd::utf8::encode_utf8;

verus! {

/// The state of a code generator.
pub struct GenState {
    /// The text generated so far.
    pub output: Seq<char>,
    /// The string pool: the label of each string constant.
    pub strings: Map<Seq<char>, usize>,
    /// The read-only data: the string constants, each under its label.
    pub string_sect: Seq<char>,
    /// Where each variable lies, in bytes below the frame base.
    pub offsets: Map<Seq<char>, u64>,
    /// The declared type of each variable.
    pub types: Map<Seq<char>, Seq<char>>,
    /// How many bytes of the frame are taken.
    pub rbp_offset: u64,
}

/// What lowering a piece of the program gives: the new state, and the
/// message of the error that stopped it, if one did.
pub struct Lowered {
    pub state: GenState,
    pub error: Option<Seq<char>>,
}

/// The number of registers that carry arguments.
pub const REGISTERS: usize = 6;

/// The size in bytes of a value of the type `data_type`, and 0 where the
/// type is not known.
pub open spec fn type_size(data_type: Seq<char>) -> u64 {
    if data_type == "int"@ {
        4
    } else if data_type == "char"@ {
        1
    } else if data_type == "char*"@ {
        8
    } else {
        0
    }
}

/// Whether `data_type` is one of the three types that there are.
pub open spec fn is_known_type(data_type: Seq<char>) -> bool {
    data_type == "int"@ || data_type == "char"@ || data_type == "char*"@
}

/// The least multiple of `unit` that is at least `n`.
pub open spec fn round_up(n: nat, unit: nat) -> nat {
    if n % unit == 0 {
        n
    } else {
        (n + unit - n % unit) as nat
    }
}

/// The 64-bit register that carries the argument at position `i`.
pub open spec fn reg64(i: nat) -> Seq<char> {
    if i == 0 {
        "%rdi"@
    } else if i == 1 {
        "%rsi"@
    } else if i == 2 {
        "%rdx"@
    } else if i == 3 {
        "%rcx"@
    } else if i == 4 {
        "%r8"@
    } else {
        "%r9"@
    }
}

/// The lower 32 bits of the register that carries the argument at
/// position `i`.
pub open spec fn reg32(i: nat) -> Seq<char> {
    if i == 0 {
        "%edi"@
    } else if i == 1 {
        "%esi"@
    } else if i == 2 {
        "%edx"@
    } else if i == 3 {
        "%ecx"@
    } else if i == 4 {
        "%r8d"@
    } else {
        "%r9d"@
    }
}

/// The lowest byte of the register that carries the argument at position
/// `i`.
pub open spec fn reg8(i: nat) -> Seq<char> {
    if i == 0 {
        "%dil"@
    } else if i == 1 {
        "%sil"@
    } else if i == 2 {
        "%dl"@
    } else if i == 3 {
        "%cl"@
    } else if i == 4 {
        "%r8b"@
    } else {
        "%r9b"@
    }
}

/// The message for a position that no register carries.
pub open spec fn too_many_registers() -> Seq<char> {
    "too many params for registers"@
}

/// The message for a function with more parameters than registers carry.
pub open spec fn too_many_parameters() -> Seq<char> {
    "tried to do stack parameters, not implemented"@
}

/// The message for a frame that has outgrown what 64 bits count.
pub open spec fn frame_too_large() -> Seq<char> {
    "stack frame too large"@
}

/// The message for a variable that was not declared.
pub open spec fn undefined_variable(name: Seq<char>) -> Seq<char> {
    "undefined variable: "@ + name
}

/// The message for a variable declared with a type that there is not.
pub open spec fn unknown_type(data_type: Seq<char>) -> Seq<char> {
    "unknown data type: "@ + data_type
}

/// The message for an initializer that is neither a literal nor a call.
pub open spec fn unsupported_initializer() -> Seq<char> {
    "unsupported initializer expression"@
}

/// The message for the result of a call stored in a variable of a type
/// that no register class holds.
pub open spec fn cannot_store(data_type: Seq<char>) -> Seq<char> {
    "unable to store return value for type: "@ + data_type
}

/// The message for a returned variable whose type was not recorded.
pub open spec fn no_type_for_return(name: Seq<char>) -> Seq<char> {
    "tried to get data type for variable "@ + name
}

/// The message for a returned variable of a type that cannot be returned.
pub open spec fn cannot_return() -> Seq<char> {
    "unable to return this data type"@
}

/// The message for a returned expression that is neither a number nor a
/// variable.
pub open spec fn unsupported_return() -> Seq<char> {
    "unsupported return expression"@
}

/// The message for an argument whose type was not recorded.
pub open spec fn no_type_for_argument(name: Seq<char>) -> Seq<char> {
    "unknown variable type: "@ + name
}

/// The message for an argument of a type that cannot be passed.
pub open spec fn cannot_pass(data_type: Seq<char>) -> Seq<char> {
    "Unsupported variable type: "@ + data_type
}

/// The message for an argument that is neither a literal nor a variable.
pub open spec fn unsupported_argument() -> Seq<char> {
    "unsupported arg type"@
}

/// The message for a parameter that has no place in the frame.
pub open spec fn no_offset_for_parameter(name: Seq<char>) -> Seq<char> {
    ("failed to find an offset for parameter '"@ + name).push('\'')
}

/// The message for a parameter of a type that there is not.
pub open spec fn cannot_spill(data_type: Seq<char>) -> Seq<char> {
    "unknown data type tried in save_param_to_stk. data type: "@ + data_type
}

/// A character of a string constant as the assembler reads it: escaped
/// where it would end the constant or could not stand in a line.
pub open spec fn escaped_char(c: char) -> Seq<char> {
    if c == '\n' {
        "\\n"@
    } else if c == '\t' {
        "\\t"@
    } else if c == '\r' {
        "\\r"@
    } else if c == '\\' {
        "\\\\"@
    } else if c == '"' {
        "\\\""@
    } else if c == '\0' {
        "\\0"@
    } else if is_control(c) {
        "\\x"@ + hex_pair(c as u8)
    } else {
        seq![c]
    }
}

/// A string constant as the assembler reads it.
pub open spec fn escaped(text: Seq<char>) -> Seq<char>
    decreases text.len(),
{
    if text.len() == 0 {
        Seq::empty()
    } else {
        escaped(text.drop_last()) + escaped_char(text.last())
    }
}

/// The label of the string constant with the number `label`.
pub open spec fn label_name(label: nat) -> Seq<char> {
    ".LC"@ + decimal(label)
}

/// The read-only data for one string constant: its label, and the
/// directive that holds its text.
pub open spec fn pool_entry(label: nat, text: Seq<char>) -> Seq<char> {
    label_name(label) + ":\n"@ + "    .string \""@ + escaped(text) + "\"\n"@
}

/// The integer nearest to `n` that 32 bits hold.
pub open spec fn clamp_i32(n: int) -> int {
    if n > i32::MAX {
        i32::MAX as int
    } else if n < i32::MIN {
        i32::MIN as int
    } else {
        n
    }
}

impl GenState {
    /// The state of a new generator: nothing generated, nothing declared.
    pub open spec fn fresh() -> GenState {
        GenState {
            output: Seq::empty(),
            strings: Map::empty(),
            string_sect: Seq::empty(),
            offsets: Map::empty(),
            types: Map::empty(),
            rbp_offset: 0,
        }
    }

    /// The state with `code` behind the text.
    pub open spec fn emit(self, code: Seq<char>) -> GenState {
        GenState { output: self.output + code, ..self }
    }

    /// The state with `code` behind the text, as a line.
    pub open spec fn emit_line(self, code: Seq<char>) -> GenState {
        GenState { output: (self.output + code).push('\n'), ..self }
    }

    /// The state with `text` in the string pool. A text that is in the
    /// pool keeps its label, and nothing changes. A new text gets the next
    /// number as its label, and its constant is added to the read-only
    /// data.
    pub open spec fn intern(self, text: Seq<char>) -> GenState {
        if self.strings.contains_key(text) {
            self
        } else {
            GenState {
                strings: self.strings.insert(text, self.strings.len() as usize),
                string_sect: self.string_sect + pool_entry(self.strings.len(), text),
                ..self
            }
        }
    }

    /// The state with a variable `name` of the type `data_type` at
    /// `offset`, the new end of the frame. An earlier variable of that
    /// name is forgotten.
    pub open spec fn declare(self, name: Seq<char>, data_type: Seq<char>, offset: u64) -> GenState {
        GenState {
            offsets: self.offsets.insert(name, offset),
            types: self.types.insert(name, data_type),
            rbp_offset: offset,
            ..self
        }
    }

    /// Lowering went through.
    pub open spec fn fine(self) -> Lowered {
        Lowered { state: self, error: None }
    }

    /// Lowering stopped with `message`.
    pub open spec fn stopped(self, message: Seq<char>) -> Lowered {
        Lowered { state: self, error: Some(message) }
    }
}

/// `instruction` with the place of a variable, `offset` bytes below the
/// frame base, as its source, and `target` as its destination.
pub open spec fn load(instruction: Seq<char>, offset: u64, target: Seq<char>) -> Seq<char> {
    instruction + " -"@ + decimal(offset as nat) + "(%rbp), "@ + target
}

/// `instruction` with `source` as its source, and the place of a
/// variable, `offset` bytes below the frame base, as its destination.
pub open spec fn store(instruction: Seq<char>, source: Seq<char>, offset: u64) -> Seq<char> {
    instruction + " "@ + source + ", -"@ + decimal(offset as nat) + "(%rbp)"@
}

/// Lowers the argument `arg` of a call, at position `i`: the register of
/// that position is loaded with the variable, with the address of the
/// string constant, or with the number. There is no register for a
/// position from the seventh on.
pub open spec fn lower_argument(st: GenState, arg: ExprView, i: nat) -> Lowered {
    if i >= REGISTERS {
        st.stopped(too_many_registers())
    } else {
        match arg {
            ExprView::Identifier(name) => {
                if !st.offsets.contains_key(name) {
                    st.stopped(undefined_variable(name))
                } else if !st.types.contains_key(name) {
                    st.stopped(no_type_for_argument(name))
                } else if st.types[name] == "int"@ {
                    st.emit_line(load("    movl"@, st.offsets[name], reg32(i))).fine()
                } else if st.types[name] == "char*"@ {
                    st.emit_line(load("    movq"@, st.offsets[name], reg64(i))).fine()
                } else if st.types[name] == "char"@ {
                    st.emit_line(load("    movzbl"@, st.offsets[name], reg32(i))).fine()
                } else {
                    st.stopped(cannot_pass(st.types[name]))
                }
            },
            ExprView::String(text) => {
                let pooled = st.intern(text);
                pooled.emit_line(
                    "    leaq "@ + label_name(pooled.strings[text] as nat) + "(%rip), "@ + reg64(
                        i,
                    ),
                ).fine()
            },
            ExprView::Number(n) => st.emit_line(
                "    movq $"@ + signed_decimal(n) + ", "@ + reg64(i),
            ).fine(),
            _ => st.stopped(unsupported_argument()),
        }
    }
}

/// Lowers the arguments of a call from position `i` on, in order.
pub open spec fn lower_arguments(st: GenState, args: Seq<ExprView>, i: nat) -> Lowered
    decreases args.len() - i,
{
    if i >= args.len() {
        st.fine()
    } else {
        let one = lower_argument(st, args[i as int], i);
        if one.error is Some {
            one
        } else {
            lower_arguments(one.state, args, i + 1)
        }
    }
}

/// Lowers a call of `callee` with `args`: the arguments go into their
/// registers, and the function is called by its name. Before a call of
/// `printf`, which takes a variable number of arguments, `%eax` is set to
/// the number of vector registers used, which is 0.
pub open spec fn lower_call(st: GenState, callee: Seq<char>, args: Seq<ExprView>) -> Lowered {
    let loaded = lower_arguments(st, args, 0);
    if loaded.error is Some {
        loaded
    } else {
        let ready = if callee == "printf"@ {
            loaded.state.emit_line("    movl $0, %eax"@)
        } else {
            loaded.state
        };
        ready.emit_line("    call "@ + callee).fine()
    }
}

/// Lowers the declaration of a variable. The frame grows by the size of
/// the type, and then up to the next multiple of 8; there the variable
/// lies. Then its value is stored: a number as it is, a string of one
/// byte as that byte, any other string as the address of its constant,
/// and the result of a call from the register that holds it.
pub open spec fn lower_variable(
    st: GenState,
    data_type: Seq<char>,
    name: Seq<char>,
    value: ExprView,
) -> Lowered {
    let end = round_up(st.rbp_offset as nat + type_size(data_type) as nat, 8);
    if !is_known_type(data_type) {
        st.stopped(unknown_type(data_type))
    } else if end > u64::MAX {
        st.stopped(frame_too_large())
    } else {
        let offset = end as u64;
        let declared = st.declare(name, data_type, offset);
        match value {
            ExprView::Number(n) => declared.emit_line(
                store("    movl"@, "$"@ + signed_decimal(n), offset),
            ).fine(),
            ExprView::String(text) => {
                if encode_utf8(text).len() == 1 {
                    declared.emit_line(
                        store("    movl"@, "$"@ + decimal(encode_utf8(text)[0] as nat), offset),
                    ).fine()
                } else {
                    let pooled = declared.intern(text);
                    pooled.emit_line(
                        "    leaq "@ + label_name(pooled.strings[text] as nat) + "(%rip), %rax"@,
                    ).emit_line(store("    movq"@, "%rax"@, offset)).fine()
                }
            },
            ExprView::FunctionCall { callee, args } => {
                let called = lower_call(declared, callee, args);
                if called.error is Some {
                    called
                } else if data_type == "int"@ {
                    called.state.emit_line(store("    movl"@, "%eax"@, offset)).fine()
                } else if data_type == "char"@ {
                    called.state.emit_line(store("    movb"@, "%al"@, offset)).fine()
                } else {
                    called.state.stopped(cannot_store(data_type))
                }
            },
            _ => declared.stopped(unsupported_initializer()),
        }
    }
}

/// Lowers a return: the value goes into `%eax`, a number as it is, cut to
/// what 32 bits hold, a variable by a load of its width.
pub open spec fn lower_return(st: GenState, value: ExprView) -> Lowered {
    match value {
        ExprView::Number(n) => st.emit_line(
            "    movl $"@ + signed_decimal(clamp_i32(n)) + ", %eax"@,
        ).fine(),
        ExprView::Identifier(name) => {
            if !st.offsets.contains_key(name) {
                st.stopped(undefined_variable(name))
            } else if !st.types.contains_key(name) {
                st.stopped(no_type_for_return(name))
            } else if st.types[name] == "int"@ {
                st.emit_line(load("    movl"@, st.offsets[name], "%eax"@)).fine()
            } else if st.types[name] == "char"@ {
                st.emit_line(load("    movzbl"@, st.offsets[name], "%eax"@)).fine()
            } else {
                st.stopped(cannot_return())
            }
        },
        _ => st.stopped(unsupported_return()),
    }
}

/// Gives the parameters from position `i` on their places in the frame:
/// each lies behind the one before it, without padding, and is a variable
/// of its declared type from then on.
pub open spec fn place_parameters(st: GenState, params: Seq<ParameterView>, i: nat) -> GenState
    decreases params.len() - i,
{
    if i >= params.len() {
        st
    } else {
        let offset = (st.rbp_offset + type_size(params[i as int].data_type)) as u64;
        place_parameters(
            st.declare(params[i as int].name, params[i as int].data_type, offset),
            params,
            i + 1,
        )
    }
}

/// Stores the parameter `param`, which arrives in the register of
/// position `i`, at its place in the frame. The register and the
/// instruction are those of the width of its type.
pub open spec fn spill_parameter(st: GenState, param: ParameterView, i: nat) -> Lowered {
    if !st.offsets.contains_key(param.name) {
        st.stopped(no_offset_for_parameter(param.name))
    } else if !is_known_type(param.data_type) {
        st.stopped(cannot_spill(param.data_type))
    } else if i >= REGISTERS {
        st.stopped(too_many_registers())
    } else if param.data_type == "char*"@ {
        st.emit_line(store("    movq"@, reg64(i), st.offsets[param.name])).fine()
    } else if param.data_type == "int"@ {
        st.emit_line(store("    movl"@, reg32(i), st.offsets[param.name])).fine()
    } else {
        st.emit_line(store("    movb"@, reg8(i), st.offsets[param.name])).fine()
    }
}

/// Stores the parameters from position `i` on at their places, in order.
pub open spec fn spill_parameters(st: GenState, params: Seq<ParameterView>, i: nat) -> Lowered
    decreases params.len() - i,
{
    if i >= params.len() {
        st.fine()
    } else {
        let one = spill_parameter(st, params[i as int], i);
        if one.error is Some {
            one
        } else {
            spill_parameters(one.state, params, i + 1)
        }
    }
}

/// The start of a function `name`: its label, the frame base, and the
/// frame, of `frame` bytes rounded up to a multiple of 16, if any.
pub open spec fn enter_function(st: GenState, name: Seq<char>, frame: u64) -> GenState {
    let based = st.emit_line(name + ":"@).emit_line("    pushq %rbp"@).emit_line(
        "    movq %rsp, %rbp"@,
    );
    if frame > 0 {
        based.emit_line("    subq $"@ + decimal(round_up(frame as nat, 16)) + ", %rsp"@)
    } else {
        based
    }
}

/// Lowers a statement.
///
/// A declaration of a variable and a return are lowered as
/// [`lower_variable`] and [`lower_return`] say. Of the expressions only a
/// call is lowered; any other gives no code. A function with more
/// parameters than registers is refused. For any other the variables are
/// forgotten, the frame starts anew with the parameters, and the text is
/// the start of the function, the stores of the parameters, the body, and
/// the way back.
pub open spec fn lower_stmt(st: GenState, stmt: StmtView) -> Lowered
    decreases stmt, 0nat,
{
    match stmt {
        StmtView::VariableDecl { data_type, name, value } => lower_variable(
            st,
            data_type,
            name,
            value,
        ),
        StmtView::Return { value } => lower_return(st, value),
        StmtView::Expression(e) => match e {
            ExprView::FunctionCall { callee, args } => lower_call(st, callee, args),
            _ => st.fine(),
        },
        StmtView::FunctionDecl { data_type, name, body, params } => {
            if params.len() > REGISTERS {
                st.stopped(too_many_parameters())
            } else {
                let placed = place_parameters(
                    GenState { offsets: Map::empty(), types: Map::empty(), rbp_offset: 0, ..st },
                    params,
                    0,
                );
                let spilled = spill_parameters(
                    enter_function(placed, name, placed.rbp_offset),
                    params,
                    0,
                );
                if spilled.error is Some {
                    spilled
                } else {
                    let lowered = lower_block(spilled.state, body, 0);
                    if lowered.error is Some {
                        lowered
                    } else {
                        lowered.state.emit_line("    leave"@).emit_line("    ret"@).fine()
                    }
                }
            }
        },
    }
}

/// Lowers the statements of `stmts` from position `i` on, in order, up
/// to the first that fails.
pub open spec fn lower_block(st: GenState, stmts: Seq<StmtView>, i: nat) -> Lowered
    decreases stmts, stmts.len() - i,
{
    if i >= stmts.len() {
        st.fine()
    } else {
        let one = lower_stmt(st, stmts[i as int]);
        if one.error is Some {
            one
        } else {
            lower_block(one.state, stmts, i + 1)
        }
    }
}

/// What generating gives: the new state, and the text or the message of
/// the error.
pub struct Generated {
    pub state: GenState,
    pub result: Result<Seq<char>, Seq<char>>,
}

/// The lines that open the text section and declare `main`.
pub open spec fn text_header(st: GenState) -> GenState {
    st.emit_line(".section .text"@).emit_line("    .globl main"@).emit_line(
        "    .type main, @function"@,
    )
}

/// Generates the assembly text of the program `stmts`.
///
/// The statements are lowered in order into a text of their own. Where
/// one fails, its message is the result. Otherwise the text of the unit
/// is added to what the generator held: the read-only data with the
/// string constants, if there are any, the header of the text section,
/// and the lowered statements. The result is all that the generator then
/// holds.
pub open spec fn generate(st: GenState, stmts: Seq<StmtView>) -> Generated {
    let lowered = lower_block(GenState { output: Seq::empty(), ..st }, stmts, 0);
    match lowered.error {
        Some(message) => Generated { state: lowered.state, result: Err(message) },
        None => {
            let resumed = GenState { output: st.output, ..lowered.state };
            let data = if resumed.string_sect.len() > 0 {
                resumed.emit_line(".section .rodata"@).emit(resumed.string_sect)
            } else {
                resumed
            };
            let all = text_header(data).emit(lowered.state.output);
            Generated { state: all, result: Ok(all.output) }
        },
    }
}

/// The error that lowering stopped with, if it did, as a value.
pub open spec fn error_of(r: Result<(), String>) -> Option<Seq<char>> {
    match r {
        Ok(_) => None,
        Err(m) => Some(m@),
    }
}

/// What generating gave, as a value.
pub open spec fn text_outcome(r: Result<String, String>) -> Result<Seq<char>, Seq<char>> {
    match r {
        Ok(text) => Ok(text@),
        Err(m) => Err(m@),
    }
}

/// What the declaration of a function stands for.
pub open spec fn function_view(f: FunctionDecl) -> StmtView {
    StmtView::FunctionDecl {
        data_type: f.data_type@,
        name: f.name@,
        body: stmts_view(f.body@),
        params: params_view(f.params@),
    }
}

/// A text of its own with `front` before `n` in base ten.
fn with_decimal(front: &str, n: u64) -> (text: String)
    ensures
        text@ == front@ + decimal(n as nat),
{
    let mut text = String::from_str(front);
    push_decimal(&mut text, n);
    text
}

/// A text of its own with `front` before `back`.
fn joined(front: &str, back: &str) -> (text: String)
    ensures
        text@ == front@ + back@,
{
    let mut text = String::from_str(front);
    text.append(back);
    text
}

/// The label of the string constant with the number `label`.
fn label_text(label: usize) -> (text: String)
    ensures
        text@ == label_name(label as nat),
{
    with_decimal(".LC", label as u64)
}

/// A load of the variable at `offset` into `target`.
fn load_line(instruction: &str, offset: u64, target: &str) -> (line: String)
    ensures
        line@ == load(instruction@, offset, target@),
{
    let mut line = String::from_str(instruction);
    line.append(" -");
    push_decimal(&mut line, offset);
    line.append("(%rbp), ");
    line.append(target);
    line
}

/// A store of `source` into the variable at `offset`.
fn store_line(instruction: &str, source: &str, offset: u64) -> (line: String)
    ensures
        line@ == store(instruction@, source@, offset),
{
    let mut line = String::from_str(instruction);
    line.append(" ");
    line.append(source);
    line.append(", -");
    push_decimal(&mut line, offset);
    line.append("(%rbp)");
    line
}

/// The 64-bit register of a position.
fn wide_register(idx: usize) -> (name: &'static str)
    requires
        idx < REGISTERS,
    ensures
        name@ == reg64(idx as nat),
{
    if idx == 0 {
        "%rdi"
    } else if idx == 1 {
        "%rsi"
    } else if idx == 2 {
        "%rdx"
    } else if idx == 3 {
        "%rcx"
    } else if idx == 4 {
        "%r8"
    } else {
        "%r9"
    }
}

/// The 32-bit register of a position.
fn narrow_register(idx: usize) -> (name: &'static str)
    requires
        idx < REGISTERS,
    ensures
        name@ == reg32(idx as nat),
{
    if idx == 0 {
        "%edi"
    } else if idx == 1 {
        "%esi"
    } else if idx == 2 {
        "%edx"
    } else if idx == 3 {
        "%ecx"
    } else if idx == 4 {
        "%r8d"
    } else {
        "%r9d"
    }
}

/// The 8-bit register of a position.
fn low_register(idx: usize) -> (name: &'static str)
    requires
        idx < REGISTERS,
    ensures
        name@ == reg8(idx as nat),
{
    if idx == 0 {
        "%dil"
    } else if idx == 1 {
        "%sil"
    } else if idx == 2 {
        "%dl"
    } else if idx == 3 {
        "%cl"
    } else if idx == 4 {
        "%r8b"
    } else {
        "%r9b"
    }
}

/// A code generator for one compilation unit.
pub struct CodeGen {
    output: String,
    strings: StringHashMap<usize>,
    variable_offsets: StringHashMap<u64>,
    variable_types: StringHashMap<String>,
    string_sect: String,
    rbp_offset: u64,
}

impl View for CodeGen {
    type V = GenState;

    closed spec fn view(&self) -> GenState {
        GenState {
            output: self.output@,
            strings: self.strings@,
            string_sect: self.string_sect@,
            offsets: self.variable_offsets@,
            types: self.variable_types@.map_values(|t: String| t@),
            rbp_offset: self.rbp_offset,
        }
    }
}

impl CodeGen {
    /// A generator that has generated nothing.
    pub fn new() -> (generator: Self)
        ensures
            generator@ == GenState::fresh(),
    {
        let generator = CodeGen {
            output: String::new(),
            strings: StringHashMap::new(),
            variable_offsets: StringHashMap::new(),
            variable_types: StringHashMap::new(),
            string_sect: String::new(),
            rbp_offset: 0,
        };
        assert(generator@.types =~= Map::<Seq<char>, Seq<char>>::empty());
        generator
    }

    /// Generates the assembly text of the program `stmts`.
    pub fn generate(&mut self, stmts: &[Stmt]) -> (r: Result<String, String>)
        ensures
            final(self)@ == generate(old(self)@, stmts_view(stmts@)).state,
            text_outcome(r) == generate(old(self)@, stmts_view(stmts@)).result,
    {
        let mut held = String::new();
        core::mem::swap(&mut self.output, &mut held);
        let ghost start = self@;
        let ghost program = stmts_view(stmts@);
        let mut i: usize = 0;
        while i < stmts.len()
            invariant
                i <= stmts.len(),
                program == stmts_view(stmts@),
                held@ == old(self)@.output,
                start == (GenState { output: Seq::empty(), ..old(self)@ }),
                lower_block(self@, program, i as nat) == lower_block(start, program, 0),
            decreases stmts.len() - i,
        {
            match self.generate_stmt(&stmts[i]) {
                Ok(_) => {},
                Err(m) => {
                    return Err(m);
                },
            }
            i += 1;
        }
        let code_sect = self.output.clone();
        self.output = held;
        if !self.string_sect.as_str().is_empty() {
            self.emit_line(".section .rodata");
            let data = self.string_sect.clone();
            self.emit(data.as_str());
        }
        self.emit_line(".section .text");
        self.emit_line("    .globl main");
        self.emit_line("    .type main, @function");
        self.emit(code_sect.as_str());
        Ok(self.output.clone())
    }

    /// Lowers a statement.
    fn generate_stmt(&mut self, stmt: &Stmt) -> (r: Result<(), String>)
        ensures
            final(self)@ == lower_stmt(old(self)@, stmt@).state,
            error_of(r) == lower_stmt(old(self)@, stmt@).error,
        decreases stmt,
    {
        match stmt {
            Stmt::VariableDecl(decl) => self.generate_var_decl(decl),
            Stmt::FunctionDecl(decl) => {
                assert(stmt@ == function_view(*decl)) by {
                    assert(stmt@->body =~= stmts_view(decl.body@));
                }
                self.generate_fn_decl(decl)
            },
            Stmt::Expression(expr) => self.generate_expr_stmt(expr),
            Stmt::Return(ret) => self.generate_return_stmt(ret),
        }
    }

    /// Lowers a return.
    fn generate_return_stmt(&mut self, ret: &Return) -> (r: Result<(), String>)
        ensures
            final(self)@ == lower_return(old(self)@, ret.value@).state,
            error_of(r) == lower_return(old(self)@, ret.value@).error,
    {
        match &ret.value {
            Expr::Number(n) => {
                let cut: i64 = if *n > 2147483647 {
                    2147483647
                } else if *n < -2147483648 {
                    -2147483648
                } else {
                    *n
                };
                let mut line = String::from_str("    movl $");
                push_signed_decimal(&mut line, cut);
                line.append(", %eax");
                self.emit_line(line.as_str());
                Ok(())
            },
            Expr::Identifier(ident) => {
                let offset = match self.get_variable_offset(ident.as_str()) {
                    Ok(offset) => offset,
                    Err(m) => {
                        return Err(m);
                    },
                };
                let line = match self.variable_types.get(ident.as_str()) {
                    Some(data_type) => {
                        if text_eq(data_type.as_str(), "int") {
                            load_line("    movl", offset, "%eax")
                        } else if text_eq(data_type.as_str(), "char") {
                            load_line("    movzbl", offset, "%eax")
                        } else {
                            return Err(String::from_str("unable to return this data type"));
                        }
                    },
                    None => {
                        return Err(
                            joined("tried to get data type for variable ", ident.as_str()),
                        );
                    },
                };
                self.emit_line(line.as_str());
                Ok(())
            },
            _ => Err(String::from_str("unsupported return expression")),
        }
    }

    /// Lowers the declaration of a variable.
    fn generate_var_decl(&mut self, var_decl: &VariableDecl) -> (r: Result<(), String>)
        ensures
            final(self)@ == lower_variable(
                old(self)@,
                var_decl.data_type@,
                var_decl.name@,
                var_decl.value@,
            ).state,
            error_of(r) == lower_variable(
                old(self)@,
                var_decl.data_type@,
                var_decl.name@,
                var_decl.value@,
            ).error,
    {
        let data_type = var_decl.data_type.as_str();
        if !Self::is_known_type(data_type) {
            return Err(joined("unknown data type: ", data_type));
        }
        let size = Self::get_type_size(data_type);
        if size > u64::MAX - self.rbp_offset {
            return Err(String::from_str("stack frame too large"));
        }
        let unaligned = self.rbp_offset + size;
        let offset = if unaligned % 8 == 0 {
            unaligned
        } else {
            let padding = 8 - unaligned % 8;
            if padding > u64::MAX - unaligned {
                return Err(String::from_str("stack frame too large"));
            }
            unaligned + padding
        };
        self.rbp_offset = offset;
        self.variable_offsets.insert(var_decl.name.clone(), offset);
        self.variable_types.insert(var_decl.name.clone(), var_decl.data_type.clone());
        assert(self@.types =~= old(self)@.types.insert(var_decl.name@, var_decl.data_type@));
        match &var_decl.value {
            Expr::Number(n) => {
                let mut source = String::from_str("$");
                push_signed_decimal(&mut source, *n);
                self.emit_line(store_line("    movl", source.as_str(), offset).as_str());
                Ok(())
            },
            Expr::String(text) => {
                let bytes = text.as_str().as_bytes();
                if bytes.len() == 1 {
                    let source = with_decimal("$", bytes[0] as u64);
                    self.emit_line(store_line("    movl", source.as_str(), offset).as_str());
                } else {
                    let label = self.pooled(text.as_str());
                    let mut line = joined("    leaq ", label_text(label).as_str());
                    line.append("(%rip), %rax");
                    self.emit_line(line.as_str());
                    self.emit_line(store_line("    movq", "%rax", offset).as_str());
                }
                Ok(())
            },
            Expr::FunctionCall { callee, args } => {
                assert(var_decl.value@->args =~= exprs_view(args@));
                match self.generate_function_call(callee.as_str(), args) {
                    Ok(_) => {},
                    Err(m) => {
                        return Err(m);
                    },
                }
                if text_eq(data_type, "int") {
                    self.emit_line(store_line("    movl", "%eax", offset).as_str());
                } else if text_eq(data_type, "char") {
                    self.emit_line(store_line("    movb", "%al", offset).as_str());
                } else {
                    return Err(joined("unable to store return value for type: ", data_type));
                }
                Ok(())
            },
            _ => Err(String::from_str("unsupported initializer expression")),
        }
    }

    /// Lowers the declaration of a function. One with more parameters than
    /// there are registers is refused, and nothing changes.
    pub fn generate_fn_decl(&mut self, func_decl: &FunctionDecl) -> (r: Result<(), String>)
        ensures
            final(self)@ == lower_stmt(old(self)@, function_view(*func_decl)).state,
            error_of(r) == lower_stmt(old(self)@, function_view(*func_decl)).error,
            func_decl.params.len() > REGISTERS ==> r is Err && final(self)@ == old(self)@,
        decreases func_decl,
    {
        if func_decl.params.len() > REGISTERS {
            return Err(String::from_str("tried to do stack parameters, not implemented"));
        }
        self.rbp_offset = 0;
        self.variable_offsets.clear();
        self.variable_types.clear();
        assert(self@.types =~= Map::<Seq<char>, Seq<char>>::empty());
        self.place_params(&func_decl.params);
        self.emit_line(joined(func_decl.name.as_str(), ":").as_str());
        self.emit_line("    pushq %rbp");
        self.emit_line("    movq %rsp, %rbp");
        if self.rbp_offset > 0 {
            let frame = if self.rbp_offset % 16 == 0 {
                self.rbp_offset
            } else {
                self.rbp_offset + (16 - self.rbp_offset % 16)
            };
            let mut line = with_decimal("    subq $", frame);
            line.append(", %rsp");
            self.emit_line(line.as_str());
        }
        match self.spill_params(&func_decl.params) {
            Ok(_) => {},
            Err(m) => {
                return Err(m);
            },
        }
        match self.generate_block(&func_decl.body) {
            Ok(_) => {},
            Err(m) => {
                return Err(m);
            },
        }
        self.emit_line("    leave");
        self.emit_line("    ret");
        Ok(())
    }

    /// Gives the parameters their places in the frame.
    fn place_params(&mut self, params: &Vec<Parameter>)
        requires
            params.len() <= REGISTERS,
            old(self)@.rbp_offset == 0,
        ensures
            final(self)@ == place_parameters(old(self)@, params_view(params@), 0),
            final(self)@.rbp_offset <= 8 * REGISTERS,
    {
        let ghost views = params_view(params@);
        let mut i: usize = 0;
        while i < params.len()
            invariant
                i <= params.len() <= REGISTERS,
                views == params_view(params@),
                self.rbp_offset <= 8 * i,
                self@.rbp_offset == self.rbp_offset,
                place_parameters(self@, views, i as nat) == place_parameters(
                    old(self)@,
                    views,
                    0,
                ),
            decreases params.len() - i,
        {
            let param = &params[i];
            let size = Self::get_type_size(param.data_type.as_str());
            self.rbp_offset = self.rbp_offset + size;
            self.variable_offsets.insert(param.name.clone(), self.rbp_offset);
            let ghost before = self@.types;
            self.variable_types.insert(param.name.clone(), param.data_type.clone());
            assert(self@.types =~= before.insert(param.name@, param.data_type@));
            i += 1;
        }
    }

    /// Stores the parameters from their registers at their places.
    fn spill_params(&mut self, params: &Vec<Parameter>) -> (r: Result<(), String>)
        ensures
            final(self)@ == spill_parameters(old(self)@, params_view(params@), 0).state,
            error_of(r) == spill_parameters(old(self)@, params_view(params@), 0).error,
    {
        let ghost views = params_view(params@);
        let mut i: usize = 0;
        while i < params.len()
            invariant
                i <= params.len(),
                views == params_view(params@),
                spill_parameters(self@, views, i as nat) == spill_parameters(
                    old(self)@,
                    views,
                    0,
                ),
            decreases params.len() - i,
        {
            match self.save_param_to_stk(&params[i], i) {
                Ok(_) => {},
                Err(m) => {
                    return Err(m);
                },
            }
            i += 1;
        }
        Ok(())
    }

    /// Lowers statements in order, up to the first that fails.
    fn generate_block(&mut self, stmts: &Vec<Stmt>) -> (r: Result<(), String>)
        ensures
            final(self)@ == lower_block(old(self)@, stmts_view(stmts@), 0).state,
            error_of(r) == lower_block(old(self)@, stmts_view(stmts@), 0).error,
        decreases stmts,
    {
        let ghost views = stmts_view(stmts@);
        let mut i: usize = 0;
        while i < stmts.len()
            invariant
                i <= stmts.len(),
                views == stmts_view(stmts@),
                lower_block(self@, views, i as nat) == lower_block(old(self)@, views, 0),
            decreases stmts.len() - i,
        {
            match self.generate_stmt(&stmts[i]) {
                Ok(_) => {},
                Err(m) => {
                    return Err(m);
                },
            }
            i += 1;
        }
        Ok(())
    }

    /// Lowers one argument of a call.
    fn generate_argument(&mut self, arg: &Expr, i: usize) -> (r: Result<(), String>)
        ensures
            final(self)@ == lower_argument(old(self)@, arg@, i as nat).state,
            error_of(r) == lower_argument(old(self)@, arg@, i as nat).error,
    {
        let wide = match Self::get_64bit_reg(i) {
            Ok(name) => name,
            Err(m) => {
                return Err(m);
            },
        };
        let narrow = match Self::get_32bit_reg(i) {
            Ok(name) => name,
            Err(m) => {
                return Err(m);
            },
        };
        match arg {
            Expr::Identifier(ident) => {
                let offset = match self.get_variable_offset(ident.as_str()) {
                    Ok(offset) => offset,
                    Err(m) => {
                        return Err(m);
                    },
                };
                let line = match self.variable_types.get(ident.as_str()) {
                    Some(data_type) => {
                        if text_eq(data_type.as_str(), "int") {
                            load_line("    movl", offset, narrow)
                        } else if text_eq(data_type.as_str(), "char*") {
                            load_line("    movq", offset, wide)
                        } else if text_eq(data_type.as_str(), "char") {
                            load_line("    movzbl", offset, narrow)
                        } else {
                            return Err(
                                joined("Unsupported variable type: ", data_type.as_str()),
                            );
                        }
                    },
                    None => {
                        return Err(joined("unknown variable type: ", ident.as_str()));
                    },
                };
                self.emit_line(line.as_str());
                Ok(())
            },
            Expr::String(text) => {
                let label = self.pooled(text.as_str());
                let mut line = joined("    leaq ", label_text(label).as_str());
                line.append("(%rip), ");
                line.append(wide);
                self.emit_line(line.as_str());
                Ok(())
            },
            Expr::Number(n) => {
                let mut line = String::from_str("    movq $");
                push_signed_decimal(&mut line, *n);
                line.append(", ");
                line.append(wide);
                self.emit_line(line.as_str());
                Ok(())
            },
            _ => Err(String::from_str("unsupported arg type")),
        }
    }

    /// Lowers a call.
    fn generate_function_call(&mut self, callee: &str, args: &Vec<Expr>) -> (r: Result<
        (),
        String,
    >)
        ensures
            final(self)@ == lower_call(old(self)@, callee@, exprs_view(args@)).state,
            error_of(r) == lower_call(old(self)@, callee@, exprs_view(args@)).error,
    {
        let ghost values = exprs_view(args@);
        let mut i: usize = 0;
        while i < args.len()
            invariant
                i <= args.len(),
                values == exprs_view(args@),
                lower_arguments(self@, values, i as nat) == lower_arguments(
                    old(self)@,
                    values,
                    0,
                ),
            decreases args.len() - i,
        {
            match self.generate_argument(&args[i], i) {
                Ok(_) => {},
                Err(m) => {
                    return Err(m);
                },
            }
            i += 1;
        }
        if text_eq(callee, "printf") {
            self.emit_line("    movl $0, %eax");
        }
        self.emit_line(joined("    call ", callee).as_str());
        Ok(())
    }

    /// Lowers an expression that stands as a statement.
    fn generate_expr_stmt(&mut self, expr: &Expr) -> (r: Result<(), String>)
        ensures
            final(self)@ == lower_stmt(old(self)@, StmtView::Expression(expr@)).state,
            error_of(r) == lower_stmt(old(self)@, StmtView::Expression(expr@)).error,
    {
        match expr {
            Expr::FunctionCall { callee, args } => {
                assert(expr@->args =~= exprs_view(args@));
                self.generate_function_call(callee.as_str(), args)
            },
            _ => Ok(()),
        }
    }

    /// Puts `s` into the string pool, if it is not there. A string that is
    /// there keeps its label, and nothing changes; a new one gets the size
    /// of the pool as its label, and its constant is added to the read-only
    /// data.
    pub fn generate_string(&mut self, s: &str) -> (r: Result<(), String>)
        ensures
            r is Ok,
            final(self)@ == old(self)@.intern(s@),
            final(self)@.strings.contains_key(s@),
            old(self)@.strings.contains_key(s@) ==> final(self)@ == old(self)@,
            !old(self)@.strings.contains_key(s@) ==> final(self)@.strings[s@] == old(
                self,
            )@.strings.len() as usize,
    {
        let _ = self.pooled(s);
        Ok(())
    }

    /// Puts `s` into the string pool, if it is not there, and gives its
    /// label.
    fn pooled(&mut self, s: &str) -> (label: usize)
        ensures
            final(self)@ == old(self)@.intern(s@),
            final(self)@.strings.contains_key(s@),
            label == final(self)@.strings[s@],
    {
        match self.strings.get(s) {
            Some(label) => *label,
            None => {
                let label = self.strings.len();
                self.strings.insert(String::from_str(s), label);
                let mut entry = label_text(label);
                entry.append(":\n");
                entry.append("    .string \"");
                entry.append(Self::get_escaped_string(s).as_str());
                entry.append("\"\n");
                self.string_sect.append(entry.as_str());
                label
            },
        }
    }

    /// Stores a parameter from its register at its place in the frame.
    fn save_param_to_stk(&mut self, param: &Parameter, reg_idx: usize) -> (r: Result<
        (),
        String,
    >)
        ensures
            final(self)@ == spill_parameter(old(self)@, param@, reg_idx as nat).state,
            error_of(r) == spill_parameter(old(self)@, param@, reg_idx as nat).error,
    {
        let offset = match self.variable_offsets.get(param.name.as_str()) {
            Some(offset) => *offset,
            None => {
                let mut message = joined(
                    "failed to find an offset for parameter '",
                    param.name.as_str(),
                );
                message.push('\'');
                return Err(message);
            },
        };
        let data_type = param.data_type.as_str();
        if !Self::is_known_type(data_type) {
            return Err(
                joined("unknown data type tried in save_param_to_stk. data type: ", data_type),
            );
        }
        let line = if text_eq(data_type, "char*") {
            match Self::get_64bit_reg(reg_idx) {
                Ok(reg) => store_line("    movq", reg, offset),
                Err(m) => {
                    return Err(m);
                },
            }
        } else if text_eq(data_type, "int") {
            match Self::get_32bit_reg(reg_idx) {
                Ok(reg) => store_line("    movl", reg, offset),
                Err(m) => {
                    return Err(m);
                },
            }
        } else {
            match Self::get_8bit_reg(reg_idx) {
                Ok(reg) => store_line("    movb", reg, offset),
                Err(m) => {
                    return Err(m);
                },
            }
        };
        self.emit_line(line.as_str());
        Ok(())
    }

    /// The 64-bit register of the position `idx`.
    pub fn get_64bit_reg(idx: usize) -> (r: Result<&'static str, String>)
        ensures
            idx < REGISTERS ==> (r matches Ok(name) && name@ == reg64(idx as nat)),
            idx >= REGISTERS ==> (r matches Err(m) && m@ == too_many_registers()),
    {
        if idx < REGISTERS {
            Ok(wide_register(idx))
        } else {
            Err(String::from_str("too many params for registers"))
        }
    }

    /// The 32-bit register of the position `idx`.
    pub fn get_32bit_reg(idx: usize) -> (r: Result<&'static str, String>)
        ensures
            idx < REGISTERS ==> (r matches Ok(name) && name@ == reg32(idx as nat)),
            idx >= REGISTERS ==> (r matches Err(m) && m@ == too_many_registers()),
    {
        if idx < REGISTERS {
            Ok(narrow_register(idx))
        } else {
            Err(String::from_str("too many params for registers"))
        }
    }

    /// The 8-bit register of the position `idx`.
    pub fn get_8bit_reg(idx: usize) -> (r: Result<&'static str, String>)
        ensures
            idx < REGISTERS ==> (r matches Ok(name) && name@ == reg8(idx as nat)),
            idx >= REGISTERS ==> (r matches Err(m) && m@ == too_many_registers()),
    {
        if idx < REGISTERS {
            Ok(low_register(idx))
        } else {
            Err(String::from_str("too many params for registers"))
        }
    }

    /// The register that carries a parameter of the type `param_type` at
    /// the position `index`: the 64-bit one for a pointer, the 32-bit one
    /// for anything else.
    pub fn get_param_register(param_type: &str, index: usize) -> (name: &'static str)
        requires
            index < REGISTERS,
        ensures
            name@ == if param_type@ == "char*"@ {
                reg64(index as nat)
            } else {
                reg32(index as nat)
            },
    {
        if text_eq(param_type, "char*") {
            wide_register(index)
        } else {
            narrow_register(index)
        }
    }

    /// The size in bytes of a value of the type `data_type`.
    pub fn get_type_size(data_type: &str) -> (size: u64)
        ensures
            size == type_size(data_type@),
    {
        if text_eq(data_type, "int") {
            4
        } else if text_eq(data_type, "char") {
            1
        } else if text_eq(data_type, "char*") {
            8
        } else {
            0
        }
    }

    /// Whether `data_type` is one of the three types.
    pub fn is_known_type(data_type: &str) -> (known: bool)
        ensures
            known == is_known_type(data_type@),
    {
        text_eq(data_type, "int") || text_eq(data_type, "char") || text_eq(data_type, "char*")
    }

    /// A string constant as the assembler reads it.
    pub fn get_escaped_string(s: &str) -> (text: String)
        ensures
            text@ == escaped(s@),
    {
        let chars = chars_of(s);
        let mut text = String::new();
        let mut i: usize = 0;
        while i < chars.len()
            invariant
                i <= chars.len(),
                chars@ == s@,
                text@ == escaped(chars@.take(i as int)),
            decreases chars.len() - i,
        {
            let c = chars[i];
            proof {
                assert(chars@.take(i + 1).drop_last() =~= chars@.take(i as int));
                assert(chars@.take(i + 1).last() == c);
            }
            if c == '\n' {
                text.append("\\n");
            } else if c == '\t' {
                text.append("\\t");
            } else if c == '\r' {
                text.append("\\r");
            } else if c == '\\' {
                text.append("\\\\");
            } else if c == '"' {
                text.append("\\\"");
            } else if c == '\0' {
                text.append("\\0");
            } else if char_is_control(c) {
                let mut code = String::from_str("\\x");
                push_hex_pair(&mut code, c as u8);
                text.append(code.as_str());
            } else {
                text.push(c);
            }
            i += 1;
        }
        assert(chars@.take(i as int) =~= s@);
        text
    }

    /// Where the variable `variable_name` lies.
    fn get_variable_offset(&self, variable_name: &str) -> (r: Result<u64, String>)
        ensures
            match r {
                Ok(offset) => self@.offsets.contains_key(variable_name@) && offset
                    == self@.offsets[variable_name@],
                Err(m) => !self@.offsets.contains_key(variable_name@) && m@
                    == undefined_variable(variable_name@),
            },
    {
        match self.variable_offsets.get(variable_name) {
            Some(offset) => Ok(*offset),
            None => Err(joined("undefined variable: ", variable_name)),
        }
    }

    /// Adds `code` to the text.
    fn emit(&mut self, code: &str)
        ensures
            final(self)@ == old(self)@.emit(code@),
    {
        self.output.append(code);
    }

    /// Adds `code` to the text, as a line.
    fn emit_line(&mut self, code: &str)
        ensures
            final(self)@ == old(self)@.emit_line(code@),
    {
        self.output.append(code);
        self.output.push('\n');
    }

    /// The text that the generator holds.
    pub fn get_output(&self) -> (text: &str)
        ensures
            text@ == self@.output,
    {
        self.output.as_str()
    }

    /// Empties the text. The string pool and the variables stay.
    pub fn clear(&mut self)
        ensures
            final(self)@ == (GenState { output: Seq::empty(), ..old(self)@ }),
    {
        self.output = String::new();
    }
}

} // verus!
