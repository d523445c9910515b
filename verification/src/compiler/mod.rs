//! The compiler: syntax trees to instruction streams.

pub mod balance;
pub mod compile;
pub mod limits;
pub mod locals;
pub mod model;
pub mod scope;
pub mod symtab;

use std::rc::Rc;
use vstd::prelude::*;

use crate::code::definitions::Instructions;
use crate::code::opcode::Opcode;
use crate::common::builtins::{builtin_name, builtin_name_of, BUILTIN_COUNT};

use crate::common::object::Object;
use crate::compiler::model::{
    constant_view,
    constant_views,
    CompilerModel,
    ConstantView,
};
use crate::compiler::scope::{CompilationScope, ScopeModel};
use crate::compiler::symtab::{SymbolTable, TableView};

verus! {

/// What a compilation gives to the machine: the instructions of the
/// program and the pool of constants.
pub struct Bytecode {
    pub instructions: Instructions,
    pub constants: Vec<Rc<Object>>,
}

/// The compiler. It holds the pool of constants, the symbol table of the
/// scope being compiled, and a buffer for that scope and for each scope
/// around it.
pub struct Compiler {
    pub constants: Vec<Rc<Object>>,
    pub symtab: SymbolTable,
    pub scopes: Vec<CompilationScope>,
    pub scope_index: usize,
}

/// The views of a list of scopes.
pub open spec fn scope_views(scopes: Seq<CompilationScope>) -> Seq<ScopeModel> {
    Seq::new(scopes.len(), |i: int| scopes[i]@)
}

/// The table of an outermost scope in which the first `n` built-in
/// functions are bound, each to its place in the list.
pub open spec fn builtins_table(n: nat) -> TableView
    decreases n,
{
    if n == 0 {
        TableView::empty()
    } else {
        builtins_table((n - 1) as nat).define_builtin(
            (n - 1) as usize,
            builtin_name_of((n - 1) as usize),
        )
    }
}

impl Compiler {
    pub open spec fn view(&self) -> CompilerModel {
        CompilerModel {
            constants: constant_views(self.constants@),
            symtab: self.symtab@,
            scopes: scope_views(self.scopes@),
        }
    }

    /// The compiler's parts fit together: the state is sound, so is the
    /// symbol table, and the current scope is the last of the list.
    pub open spec fn wf(&self) -> bool {
        &&& self@.inv()
        &&& self.symtab.wf()
        &&& self.scope_index + 1 == self.scopes@.len()
    }

    /// A compiler for a new program: no constants, the built-in functions
    /// bound in the outermost table, and an empty buffer for the program.
    pub fn new() -> (compiler: Compiler)
        ensures
            compiler.wf(),
            compiler@ == (CompilerModel {
                constants: Seq::empty(),
                symtab: builtins_table(BUILTIN_COUNT as nat),
                scopes: seq![ScopeModel::empty()],
            }),
    {
        let mut symtab = SymbolTable::default();
        let mut i: usize = 0;
        while i < BUILTIN_COUNT
            invariant
                i <= BUILTIN_COUNT,
                symtab.wf(),
                symtab@ == builtins_table(i as nat),
            decreases BUILTIN_COUNT - i,
        {
            symtab.define_builtin(i, builtin_name(i));
            i = i + 1;
        }
        let compiler = Self::new_with_state(symtab, Vec::new());
        assert(compiler@.constants =~= Seq::<ConstantView>::empty());
        compiler
    }

    /// A compiler that goes on with the symbol table and the constants of
    /// an earlier compilation, and an empty buffer for the program.
    pub fn new_with_state(symtab: SymbolTable, constants: Vec<Rc<Object>>) -> (compiler: Compiler)
        requires
            symtab.wf(),
        ensures
            compiler.wf(),
            compiler.symtab == symtab,
            compiler.constants == constants,
            compiler@ == (CompilerModel {
                constants: constant_views(constants@),
                symtab: symtab@,
                scopes: seq![ScopeModel::empty()],
            }),
    {
        let mut scopes: Vec<CompilationScope> = Vec::new();
        scopes.push(CompilationScope::new());
        let compiler = Compiler { constants, symtab, scopes, scope_index: 0 };
        assert(compiler@.scopes =~= seq![ScopeModel::empty()]);
        compiler
    }

    /// Enters a function body: an empty buffer on top, and a new table
    /// inside the current one.
    pub fn enter_scope(&mut self)
        requires
            old(self).wf(),
        ensures
            final(self).wf(),
            final(self)@ == old(self)@.enter_scope(),
            final(self).constants == old(self).constants,
    {
        self.scopes.push(CompilationScope::new());
        self.scope_index = self.scopes.len() - 1;
        let mut table = SymbolTable::default();
        std::mem::swap(&mut self.symtab, &mut table);
        self.symtab = SymbolTable::new_enclosed(table);
        proof {
            assert(self@.scopes =~= old(self)@.scopes.push(ScopeModel::empty()));
            assert forall|i: int| 0 <= i < self@.scopes.len() implies (
            #[trigger] self@.scopes[i]).inv() by {
                if i < old(self)@.scopes.len() {
                    assert(old(self)@.scopes[i].inv());
                }
            }
        }
    }

    /// Leaves a function body: gives its instructions, and goes back to the
    /// buffer and the table of the scope around it.
    pub fn leave_scope(&mut self) -> (instructions: Instructions)
        requires
            old(self).wf(),
            old(self).scope_index > 0,
        ensures
            final(self).wf(),
            final(self)@ == old(self)@.leave_scope(),
            final(self).constants == old(self).constants,
            instructions.code@ == old(self)@.current().code,
            instructions.lines@ == old(self)@.current().lines,
    {
        let scope = self.scopes.pop().unwrap();
        self.scope_index = self.scope_index - 1;
        let outer = self.symtab.outer.take().unwrap();
        self.symtab = *outer;
        proof {
            assert(self@.scopes =~= old(self)@.scopes.drop_last());
            assert forall|i: int| 0 <= i < self@.scopes.len() implies (
            #[trigger] self@.scopes[i]).inv() by {
                assert(old(self)@.scopes[i].inv());
            }
        }
        scope.instructions
    }

    /// The instructions of the current scope.
    pub fn get_curr_instructions(&self) -> (instructions: Instructions)
        requires
            self.scope_index < self.scopes@.len(),
        ensures
            instructions.code@ == self.scopes@[self.scope_index as int]@.code,
            instructions.lines@ == self.scopes@[self.scope_index as int]@.lines,
    {
        self.scopes[self.scope_index].instructions.clone()
    }

    /// The instructions of the current scope and the pool of constants.
    pub fn bytecode(&self) -> (bytecode: Bytecode)
        requires
            self.scope_index < self.scopes@.len(),
        ensures
            bytecode.instructions.code@ == self.scopes@[self.scope_index as int]@.code,
            bytecode.instructions.lines@ == self.scopes@[self.scope_index as int]@.lines,
            bytecode.constants@ == self.constants@,
    {
        Bytecode {
            instructions: self.get_curr_instructions(),
            constants: crate::common::object::share_values(&self.constants),
        }
    }

    /// Adds a constant to the pool and gives its index.
    pub fn add_constant(&mut self, obj: Object) -> (index: usize)
        ensures
            final(self).constants@.len() == old(self).constants@.len() + 1,
            final(self).constants@.take(old(self).constants@.len() as int) == old(
                self,
            ).constants@,
            *final(self).constants@.last() == obj,
            final(self)@ == old(self)@.add_constant(constant_view(final(self).constants@.last())),
            final(self).symtab == old(self).symtab,
            final(self).scopes == old(self).scopes,
            final(self).scope_index == old(self).scope_index,
            index == old(self).constants@.len(),
    {
        self.constants.push(Rc::new(obj));
        proof {
            assert(self.constants@.take(old(self).constants@.len() as int) =~= old(
                self,
            ).constants@);
            assert(self@.constants =~= old(self)@.constants.push(
                constant_view(self.constants@.last()),
            ));
        }
        self.constants.len() - 1
    }

    /// Puts the bytes of `ins` and their lines at the end of the current
    /// buffer, and gives the offset of the first. The record of the last
    /// instruction stays as it is.
    pub fn add_instruction(&mut self, ins: Instructions) -> (pos: usize)
        requires
            old(self).scope_index < old(self).scopes@.len(),
        ensures
            pos == old(self).scopes@[old(self).scope_index as int]@.code.len(),
            final(self).scopes@.len() == old(self).scopes@.len(),
            final(self).scopes@[old(self).scope_index as int]@ == (ScopeModel {
                code: old(self).scopes@[old(self).scope_index as int]@.code + ins.code@,
                lines: old(self).scopes@[old(self).scope_index as int]@.lines + ins.lines@,
                ..old(self).scopes@[old(self).scope_index as int]@
            }),
            forall|i: int|
                0 <= i < old(self).scopes@.len() && i != old(self).scope_index
                    ==> final(self).scopes@[i] == old(self).scopes@[i],
            final(self).constants == old(self).constants,
            final(self).symtab == old(self).symtab,
            final(self).scope_index == old(self).scope_index,
    {
        let mut ins = ins;
        let mut filler = CompilationScope::new();
        let index = self.scope_index;
        let mut scope = self.take_scope(index, filler);
        let pos = scope.instructions.code.len();
        scope.instructions.code.append(&mut ins.code);
        scope.instructions.lines.append(&mut ins.lines);
        self.scopes.set(index, scope);
        pos
    }

    /// Takes the scope at `index` out of the list, leaving `filler` in its
    /// place.
    fn take_scope(&mut self, index: usize, filler: CompilationScope) -> (scope: CompilationScope)
        requires
            index < old(self).scopes@.len(),
        ensures
            scope == old(self).scopes@[index as int],
            final(self).scopes@ == old(self).scopes@.update(index as int, filler),
            final(self).constants == old(self).constants,
            final(self).symtab == old(self).symtab,
            final(self).scope_index == old(self).scope_index,
    {
        let mut rest = self.scopes.split_off(index);
        let mut scope = filler;
        std::mem::swap(&mut scope, &mut rest[0]);
        self.scopes.append(&mut rest);
        assert(self.scopes@ =~= old(self).scopes@.update(index as int, filler));
        scope
    }

    /// Writes an instruction to the current buffer, records it as the last
    /// written, and gives the offset of its first byte.
    pub fn emit(&mut self, op: Opcode, operands: &[usize], line: usize) -> (pos: usize)
        requires
            old(self).scope_index + 1 == old(self).scopes@.len(),
        ensures
            final(self)@ == old(self)@.emit(op, operands@, line),
            pos == old(self)@.current().code.len(),
            final(self).constants == old(self).constants,
            final(self).symtab == old(self).symtab,
            final(self).scope_index == old(self).scope_index,
            final(self).scopes@.len() == old(self).scopes@.len(),
    {
        let mut scope = self.scopes.pop().unwrap();
        let pos = scope.emit(op, operands, line);
        self.scopes.push(scope);
        proof {
            assert(self@.scopes =~= old(self)@.emit(op, operands@, line).scopes);
        }
        pos
    }
}

} // verus!
