//! The words of the language: what a list means whose first element is their name.
use std::rc::Rc;
use vstd::prelude::*;

use crate::analysis::SymbolicExpression;
use crate::builder::InstrSeqBuilder;
use crate::error::{Failure, GeneratorError};
use crate::generator::WasmGenerator;
use crate::growth::stage;
use crate::ir::group_emit;
use crate::progress::{progress, Progress};
use crate::types::TypeSignature;

verus! {

broadcast use group_emit;

/// The name of a word.
pub type Name = Seq<char>;

/// The arguments of a word.
pub type Arguments = Seq<SymbolicExpression>;

/// The types of the arguments of a word.
pub type ArgumentTypes = Seq<Rc<TypeSignature>>;

/// A set of words. What a word does to the generator and to the function that is being
/// built is up to the word, as long as it depends on nothing else, only adds to what is
/// there, and its instructions write only locals and run only sequences that it added.
pub trait Words {
    /// Whether `name` is a word that visits its arguments itself.
    spec fn is_complex(&self, name: Name) -> bool;

    /// Whether `name` is a word whose arguments are on the stack when it is visited.
    spec fn is_simple(&self, name: Name) -> bool;

    /// Whether `name` is a word that is visited for each pair of neighbouring arguments.
    spec fn is_variadic(&self, name: Name) -> bool;

    /// What a word does that visits its arguments itself.
    spec fn complex_effect(
        &self,
        name: Name,
        start: Progress,
        expr: SymbolicExpression,
        args: Arguments,
    ) -> Progress;

    /// What a word does whose arguments are on the stack.
    spec fn simple_effect(
        &self,
        name: Name,
        start: Progress,
        arg_types: ArgumentTypes,
        return_type: TypeSignature,
    ) -> Progress;

    /// What a word does whose last two arguments are on the stack.
    spec fn variadic_effect(
        &self,
        name: Name,
        start: Progress,
        arg_types: ArgumentTypes,
        return_type: TypeSignature,
    ) -> Progress;

    /// Whether `name` is a word that visits its arguments itself.
    fn lookup_complex(&self, name: &str) -> (found: bool)
        ensures
            found == self.is_complex(name@),
    ;

    /// Whether `name` is a word whose arguments are on the stack when it is visited.
    fn lookup_simple(&self, name: &str) -> (found: bool)
        ensures
            found == self.is_simple(name@),
    ;

    /// Whether `name` is a word that is visited for each pair of neighbouring arguments.
    fn lookup_variadic_simple(&self, name: &str) -> (found: bool)
        ensures
            found == self.is_variadic(name@),
    ;

    /// Visits a word and its arguments.
    fn traverse(
        &self,
        name: &str,
        generator: &mut WasmGenerator,
        builder: &mut InstrSeqBuilder,
        expr: &SymbolicExpression,
        args: &[SymbolicExpression],
    ) -> (result: Result<(), GeneratorError>)
        requires
            old(generator).wf(),
            old(builder).wf(),
        ensures
            final(generator).wf(),
            final(builder).wf(),
            final(builder).seq == old(builder).seq,
            final(builder).grew_from(*old(builder)),
            result is Ok ==> stage(final(generator)@, final(builder)@).grew_from(
                stage(old(generator)@, old(builder)@),
            ),
            progress(*final(generator), *final(builder), result) == self.complex_effect(
                name@,
                Progress::start(old(generator)@, old(builder)@),
                *expr,
                args@,
            ),
    ;

    /// Visits a word whose arguments are on the stack.
    fn visit_simple(
        &self,
        name: &str,
        generator: &mut WasmGenerator,
        builder: &mut InstrSeqBuilder,
        arg_types: &[Rc<TypeSignature>],
        return_type: &TypeSignature,
    ) -> (result: Result<(), GeneratorError>)
        requires
            old(generator).wf(),
            old(builder).wf(),
        ensures
            final(generator).wf(),
            final(builder).wf(),
            final(builder).seq == old(builder).seq,
            final(builder).grew_from(*old(builder)),
            result is Ok ==> stage(final(generator)@, final(builder)@).grew_from(
                stage(old(generator)@, old(builder)@),
            ),
            progress(*final(generator), *final(builder), result) == self.simple_effect(
                name@,
                Progress::start(old(generator)@, old(builder)@),
                arg_types@,
                *return_type,
            ),
    ;

    /// Visits a word for its only argument, or for two neighbouring arguments, which are
    /// on the stack.
    fn visit_variadic(
        &self,
        name: &str,
        generator: &mut WasmGenerator,
        builder: &mut InstrSeqBuilder,
        arg_types: &[Rc<TypeSignature>],
        return_type: &TypeSignature,
    ) -> (result: Result<(), GeneratorError>)
        requires
            old(generator).wf(),
            old(builder).wf(),
        ensures
            final(generator).wf(),
            final(builder).wf(),
            final(builder).seq == old(builder).seq,
            final(builder).grew_from(*old(builder)),
            result is Ok ==> stage(final(generator)@, final(builder)@).grew_from(
                stage(old(generator)@, old(builder)@),
            ),
            progress(*final(generator), *final(builder), result) == self.variadic_effect(
                name@,
                Progress::start(old(generator)@, old(builder)@),
                arg_types@,
                *return_type,
            ),
    ;
}

/// The set of no words: every list is a call of a function that the contract defines, and
/// no word can be visited.
pub struct NoWords;

impl Words for NoWords {
    open spec fn is_complex(&self, name: Name) -> bool {
        false
    }

    open spec fn is_simple(&self, name: Name) -> bool {
        false
    }

    open spec fn is_variadic(&self, name: Name) -> bool {
        false
    }

    open spec fn complex_effect(
        &self,
        name: Name,
        start: Progress,
        expr: SymbolicExpression,
        args: Arguments,
    ) -> Progress {
        start.fail(Failure::NotImplemented)
    }

    open spec fn simple_effect(
        &self,
        name: Name,
        start: Progress,
        arg_types: ArgumentTypes,
        return_type: TypeSignature,
    ) -> Progress {
        start.fail(Failure::NotImplemented)
    }

    open spec fn variadic_effect(
        &self,
        name: Name,
        start: Progress,
        arg_types: ArgumentTypes,
        return_type: TypeSignature,
    ) -> Progress {
        start.fail(Failure::NotImplemented)
    }

    fn lookup_complex(&self, name: &str) -> (found: bool) {
        false
    }

    fn lookup_simple(&self, name: &str) -> (found: bool) {
        false
    }

    fn lookup_variadic_simple(&self, name: &str) -> (found: bool) {
        false
    }

    fn traverse(
        &self,
        name: &str,
        generator: &mut WasmGenerator,
        builder: &mut InstrSeqBuilder,
        expr: &SymbolicExpression,
        args: &[SymbolicExpression],
    ) -> (result: Result<(), GeneratorError>) {
        Err(GeneratorError::NotImplemented)
    }

    fn visit_simple(
        &self,
        name: &str,
        generator: &mut WasmGenerator,
        builder: &mut InstrSeqBuilder,
        arg_types: &[Rc<TypeSignature>],
        return_type: &TypeSignature,
    ) -> (result: Result<(), GeneratorError>) {
        Err(GeneratorError::NotImplemented)
    }

    fn visit_variadic(
        &self,
        name: &str,
        generator: &mut WasmGenerator,
        builder: &mut InstrSeqBuilder,
        arg_types: &[Rc<TypeSignature>],
        return_type: &TypeSignature,
    ) -> (result: Result<(), GeneratorError>) {
        Err(GeneratorError::NotImplemented)
    }
}

} // verus!
