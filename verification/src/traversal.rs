//! Visiting the expressions of a contract.
use std::rc::Rc;
use vstd::prelude::*;

use crate::analysis::{AnalysisView, SymbolicExpression, SymbolicExpressionType};
use crate::builder::InstrSeqBuilder;
use crate::calls::user_call_effect;
use crate::error::{internal_error, type_error, Failure, GeneratorError};
use crate::generator::{internal, GeneratorView, WasmGenerator};
use crate::growth::{lemma_analysis_changed, lemma_grew_twice, lemma_no_growth, stage};
use crate::ir::group_emit;
use crate::literals::literal_effect;
use crate::progress::{progress, Progress};
use crate::types::{share, FixedFunction, FunctionArg, FunctionType, TypeSignature};
use crate::variables::atom_effect;
use crate::words::Words;

verus! {

broadcast use {group_emit, lemma_grew_twice};

/// The failure for a contract that was not type checked.
pub open spec fn not_type_checked() -> Failure {
    internal("type-checker must be called before Wasm generation"@)
}

/// Whether the expressions from position `i` on have types.
pub open spec fn all_typed(analysis: AnalysisView, args: Seq<SymbolicExpression>, i: nat) -> bool
    decreases args.len() - i,
{
    i >= args.len() || (analysis.type_of(args[i as int]) is Some && all_typed(
        analysis,
        args,
        i + 1,
    ))
}

/// The types of expressions.
pub open spec fn types_of(analysis: AnalysisView, args: Seq<SymbolicExpression>) -> Seq<
    Rc<TypeSignature>,
> {
    Seq::new(args.len(), |i: int| analysis.type_of(args[i])->0)
}

/// Why the types of a word and of its arguments are not known, where they are not.
pub open spec fn word_types_failure(
    analysis: AnalysisView,
    expr: SymbolicExpression,
    args: Seq<SymbolicExpression>,
) -> Option<Failure> {
    if !all_typed(analysis, args, 0) {
        Some(Failure::TypeError("expected valid argument type"@))
    } else if analysis.type_of(expr) is None {
        Some(Failure::TypeError("Simple words must be typed"@))
    } else {
        None
    }
}

/// Visits an expression.
pub open spec fn expr_effect<W: Words>(
    words: &W,
    start: Progress,
    expr: SymbolicExpression,
) -> Progress
    decreases expr, 2int, 0int,
{
    match expr.expr {
        SymbolicExpressionType::Atom(name) => atom_effect(start, name@, expr),
        SymbolicExpressionType::List(list) => list_effect(words, start, expr),
        SymbolicExpressionType::LiteralValue(value) => literal_effect(start, value),
        _ => start,
    }
}

/// The elements of a list.
pub open spec fn elements(expr: SymbolicExpression) -> Seq<SymbolicExpression> {
    expr.expr->List_0@
}

/// Visits a list: a word, or a call of a function that the contract defines.
pub open spec fn list_effect<W: Words>(
    words: &W,
    start: Progress,
    expr: SymbolicExpression,
) -> Progress
    decreases expr, 1int, 0int,
    when expr.expr is List
{
    let list = elements(expr);
    if list.len() == 0 || list[0].expr !is Atom {
        start.fail(internal("Invalid list"@))
    } else {
        let name = list[0].expr->Atom_0@;
        let args = list.subrange(1, list.len() as int);
        let analysis = start.generator.analysis;
        let types = types_of(analysis, args);
        let return_type = analysis.type_of(expr)->0;
        if words.is_complex(name) {
            words.complex_effect(name, start, expr, args)
        } else if words.is_simple(name) {
            match word_types_failure(analysis, expr, args) {
                Some(failure) => start.fail(failure),
                None => {
                    let pushed = args_effect(words, start, args, 0);
                    if pushed.failure is Some {
                        pushed
                    } else {
                        words.simple_effect(name, pushed, types, *return_type)
                    }
                },
            }
        } else if words.is_variadic(name) {
            match word_types_failure(analysis, expr, args) {
                Some(failure) => start.fail(failure),
                None => if args.len() == 0 {
                    start.fail(internal("Variadic called without arguments"@))
                } else {
                    let pushed = expr_effect(words, start, args[0]);
                    if pushed.failure is Some {
                        pushed
                    } else if args.len() == 1 {
                        words.variadic_effect(name, pushed, types, *return_type)
                    } else {
                        pairs_effect(words, name, pushed, args, types, *return_type, 1)
                    }
                },
            }
        } else {
            user_defined_effect(words, start, expr, name, args)
        }
    }
}

/// Visits expressions one after the other, from position `i` on.
pub open spec fn args_effect<W: Words>(
    words: &W,
    start: Progress,
    args: Seq<SymbolicExpression>,
    i: nat,
) -> Progress
    decreases args, 0int, args.len() - i,
{
    if i >= args.len() {
        start
    } else {
        let next = expr_effect(words, start, args[i as int]);
        if next.failure is Some {
            next
        } else {
            args_effect(words, next, args, i + 1)
        }
    }
}

/// Visits each argument from position `i` on, and the word for it and the argument before
/// it.
pub open spec fn pairs_effect<W: Words>(
    words: &W,
    name: Seq<char>,
    start: Progress,
    args: Seq<SymbolicExpression>,
    types: Seq<Rc<TypeSignature>>,
    return_type: TypeSignature,
    i: nat,
) -> Progress
    decreases args, 0int, args.len() - i,
{
    if i >= args.len() {
        start
    } else {
        let pushed = expr_effect(words, start, args[i as int]);
        if pushed.failure is Some {
            pushed
        } else {
            let next = words.variadic_effect(
                name,
                pushed,
                types.subrange(i - 1, (i + 1) as int),
                return_type,
            );
            if next.failure is Some {
                next
            } else {
                pairs_effect(words, name, next, args, types, return_type, i + 1)
            }
        }
    }
}

/// Gives arguments the types of the parameters, from position `i` on.
pub open spec fn set_types_effect(
    start: Progress,
    args: Seq<SymbolicExpression>,
    params: Seq<FunctionArg>,
    i: nat,
) -> Progress
    decreases args.len() - i,
{
    if i >= args.len() || i >= params.len() {
        start
    } else if start.generator.analysis.types is None {
        start.fail(not_type_checked())
    } else {
        set_types_effect(
            Progress {
                generator: start.generator.with_type(args[i as int], params[i as int].signature),
                ..start
            },
            args,
            params,
            i + 1,
        )
    }
}

/// Visits a call of a function that the contract defines.
pub open spec fn user_defined_effect<W: Words>(
    words: &W,
    start: Progress,
    expr: SymbolicExpression,
    name: Seq<char>,
    args: Seq<SymbolicExpression>,
) -> Progress
    decreases args, 1int, 0int,
{
    let typed = match start.generator.analysis.function_type(name) {
        Some(FunctionType::Fixed(function)) => set_types_effect(start, args, function.args@, 0),
        _ => start,
    };
    if typed.failure is Some {
        typed
    } else {
        let pushed = args_effect(words, typed, args, 0);
        if pushed.failure is Some {
            pushed
        } else {
            match pushed.generator.analysis.type_of(expr) {
                Some(return_ty) => user_call_effect(pushed, *return_ty, name),
                None => pushed.fail(
                    Failure::TypeError("function call expression must be typed"@),
                ),
            }
        }
    }
}

impl WasmGenerator {
    /// Visits an expression.
    pub fn traverse_expr<W: Words>(
        &mut self,
        words: &W,
        builder: &mut InstrSeqBuilder,
        expr: &SymbolicExpression,
    ) -> (result: Result<(), GeneratorError>)
        requires
            old(self).wf(),
            old(builder).wf(),
        ensures
            final(self).wf(),
            final(builder).wf(),
            final(builder).seq == old(builder).seq,
            final(builder).grew_from(*old(builder)),
            result is Ok ==> stage(final(self)@, final(builder)@).grew_from(
                stage(old(self)@, old(builder)@),
            ),
            progress(*final(self), *final(builder), result) == expr_effect(
                words,
                Progress::start(old(self)@, old(builder)@),
                *expr,
            ),
        decreases *expr, 2int, 0int,
    {
        proof {
            lemma_no_growth(stage(self@, builder@));
        }
        match &expr.expr {
            SymbolicExpressionType::Atom(name) => self.visit_atom(builder, expr, name.as_str()),
            SymbolicExpressionType::List(list) => self.traverse_list(words, builder, expr, list),
            SymbolicExpressionType::LiteralValue(value) => self.visit_literal_value(builder, value),
            _ => Ok(()),
        }
    }

    /// The types of arguments and of the word that they are given to.
    fn get_word_types(&self, expr: &SymbolicExpression, args: &[SymbolicExpression]) -> (result:
        Result<(Vec<Rc<TypeSignature>>, Rc<TypeSignature>), GeneratorError>)
        ensures
            match result {
                Ok((arg_types, return_type)) => {
                    &&& word_types_failure(self@.analysis, *expr, args@) is None
                    &&& arg_types@ == types_of(self@.analysis, args@)
                    &&& self@.analysis.type_of(*expr) == Some(return_type)
                },
                Err(error) => word_types_failure(self@.analysis, *expr, args@) == Some(error@),
            },
    {
        let mut arg_types: Vec<Rc<TypeSignature>> = Vec::new();
        let mut i: usize = 0;
        while i < args.len()
            invariant
                i <= args@.len(),
                arg_types@ == types_of(self@.analysis, args@).take(i as int),
                all_typed(self@.analysis, args@, 0) == all_typed(
                    self@.analysis,
                    args@,
                    i as nat,
                ),
            decreases args@.len() - i,
        {
            match self.get_expr_type(&args[i]) {
                Some(ty) => arg_types.push(share(ty)),
                None => return Err(type_error("expected valid argument type")),
            }
            assert(types_of(self@.analysis, args@).take(i + 1) =~= types_of(
                self@.analysis,
                args@,
            ).take(i as int).push(self@.analysis.type_of(args@[i as int])->0));
            i += 1;
        }
        assert(types_of(self@.analysis, args@).take(i as int) =~= types_of(
            self@.analysis,
            args@,
        ));
        match self.get_expr_type(expr) {
            Some(ty) => Ok((arg_types, share(ty))),
            None => Err(type_error("Simple words must be typed")),
        }
    }

    /// Visits a list: a word, or a call of a function that the contract defines.
    fn traverse_list<W: Words>(
        &mut self,
        words: &W,
        builder: &mut InstrSeqBuilder,
        expr: &SymbolicExpression,
        list: &Vec<SymbolicExpression>,
    ) -> (result: Result<(), GeneratorError>)
        requires
            old(self).wf(),
            old(builder).wf(),
            expr.expr == SymbolicExpressionType::List(*list),
        ensures
            final(self).wf(),
            final(builder).wf(),
            final(builder).seq == old(builder).seq,
            final(builder).grew_from(*old(builder)),
            result is Ok ==> stage(final(self)@, final(builder)@).grew_from(
                stage(old(self)@, old(builder)@),
            ),
            progress(*final(self), *final(builder), result) == list_effect(
                words,
                Progress::start(old(self)@, old(builder)@),
                *expr,
            ),
        decreases *expr, 1int, 0int,
    {
        if list.len() == 0 {
            return Err(internal_error("Invalid list"));
        }
        let function_name = match &list[0].expr {
            SymbolicExpressionType::Atom(name) => name.as_str(),
            _ => return Err(internal_error("Invalid list")),
        };
        let args = vstd::slice::slice_subrange(list.as_slice(), 1, list.len());
        proof {
            assert(decreases_to!(*expr => expr.expr));
            assert(decreases_to!(expr.expr => *list));
            assert(decreases_to!(*list => list@));
            assert(decreases_to!(list@ => args@));
        }
        // Complex words handle their own argument traversal, and have priority
        // since there can be a slight overlap with words that also exist in
        // simple form
        if words.lookup_complex(function_name) {
            words.traverse(function_name, self, builder, expr, args)
        } else if words.lookup_simple(function_name) {
            let (arg_types, return_type) = self.get_word_types(expr, args)?;

            // traverse arguments
            self.traverse_args(words, builder, args)?;

            words.visit_simple(function_name, self, builder, arg_types.as_slice(), &return_type)
        } else if words.lookup_variadic_simple(function_name) {
            let (arg_types, return_type) = self.get_word_types(expr, args)?;

            if args.len() == 0 {
                return Err(internal_error("Variadic called without arguments"));
            }
            self.traverse_expr(words, builder, &args[0])?;

            if args.len() == 1 {
                words.visit_variadic(
                    function_name,
                    self,
                    builder,
                    arg_types.as_slice(),
                    &return_type,
                )
            } else {
                self.traverse_pairs(words, function_name, builder, args, &arg_types, &return_type)
            }
        } else {
            self.traverse_call_user_defined(words, builder, expr, function_name, args)
        }
    }

    /// Visits each argument but the first, and the word for it and the argument before it.
    fn traverse_pairs<W: Words>(
        &mut self,
        words: &W,
        name: &str,
        builder: &mut InstrSeqBuilder,
        args: &[SymbolicExpression],
        arg_types: &Vec<Rc<TypeSignature>>,
        return_type: &TypeSignature,
    ) -> (result: Result<(), GeneratorError>)
        requires
            old(self).wf(),
            old(builder).wf(),
            arg_types@.len() == args@.len(),
        ensures
            final(self).wf(),
            final(builder).wf(),
            final(builder).seq == old(builder).seq,
            final(builder).grew_from(*old(builder)),
            result is Ok ==> stage(final(self)@, final(builder)@).grew_from(
                stage(old(self)@, old(builder)@),
            ),
            progress(*final(self), *final(builder), result) == pairs_effect(
                words,
                name@,
                Progress::start(old(self)@, old(builder)@),
                args@,
                arg_types@,
                *return_type,
                1,
            ),
        decreases args@, 0int, args@.len(),
    {
        proof {
            lemma_no_growth(stage(self@, builder@));
        }
        let mut i: usize = 1;
        while i < args.len()
            invariant
                1 <= i,
                self.wf(),
                builder.wf(),
                builder.seq == old(builder).seq,
                builder.grew_from(*old(builder)),
                stage(self@, builder@).grew_from(stage(old(self)@, old(builder)@)),
                arg_types@.len() == args@.len(),
                pairs_effect(
                    words,
                    name@,
                    Progress::start(old(self)@, old(builder)@),
                    args@,
                    arg_types@,
                    *return_type,
                    1,
                ) == pairs_effect(
                    words,
                    name@,
                    Progress::start(self@, builder@),
                    args@,
                    arg_types@,
                    *return_type,
                    i as nat,
                ),
            decreases args@.len() - i,
        {
            self.traverse_expr(words, builder, &args[i])?;
            let pair = vstd::slice::slice_subrange(arg_types.as_slice(), i - 1, i + 1);
            words.visit_variadic(name, self, builder, pair, return_type)?;
            i += 1;
        }
        Ok(())
    }

    /// Visits expressions one after the other.
    pub fn traverse_args<W: Words>(
        &mut self,
        words: &W,
        builder: &mut InstrSeqBuilder,
        args: &[SymbolicExpression],
    ) -> (result: Result<(), GeneratorError>)
        requires
            old(self).wf(),
            old(builder).wf(),
        ensures
            final(self).wf(),
            final(builder).wf(),
            final(builder).seq == old(builder).seq,
            final(builder).grew_from(*old(builder)),
            result is Ok ==> stage(final(self)@, final(builder)@).grew_from(
                stage(old(self)@, old(builder)@),
            ),
            progress(*final(self), *final(builder), result) == args_effect(
                words,
                Progress::start(old(self)@, old(builder)@),
                args@,
                0,
            ),
        decreases args@, 0int, args@.len(),
    {
        proof {
            lemma_no_growth(stage(self@, builder@));
        }
        let mut i: usize = 0;
        while i < args.len()
            invariant
                self.wf(),
                builder.wf(),
                builder.seq == old(builder).seq,
                builder.grew_from(*old(builder)),
                stage(self@, builder@).grew_from(stage(old(self)@, old(builder)@)),
                args_effect(words, Progress::start(old(self)@, old(builder)@), args@, 0)
                    == args_effect(words, Progress::start(self@, builder@), args@, i as nat),
            decreases args@.len() - i,
        {
            self.traverse_expr(words, builder, &args[i])?;
            i += 1;
        }
        Ok(())
    }

    /// Gives arguments the types of the parameters.
    fn set_argument_types(
        &mut self,
        args: &[SymbolicExpression],
        function: &FixedFunction,
    ) -> (result: Result<(), GeneratorError>)
        requires
            old(self).wf(),
        ensures
            final(self).wf(),
            final(self)@ == (GeneratorView { analysis: final(self)@.analysis, ..old(self)@ }),
            forall|start: Progress|
                start.generator == old(self)@ && start.failure is None
                    ==> #[trigger] set_types_effect(start, args@, function.args@, 0) == (Progress {
                    generator: final(self)@,
                    failure: crate::error::failure_of(result),
                    ..start
                }),
    {
        let mut i: usize = 0;
        while i < args.len() && i < function.args.len()
            invariant
                self.wf(),
                self@ == (GeneratorView { analysis: self@.analysis, ..old(self)@ }),
                forall|start: Progress|
                    start.generator == old(self)@ && start.failure is None
                        ==> #[trigger] set_types_effect(start, args@, function.args@, 0)
                        == set_types_effect(
                        Progress { generator: self@, ..start },
                        args@,
                        function.args@,
                        i as nat,
                    ),
            decreases args@.len() - i,
        {
            self.set_expr_type(&args[i], share(&function.args[i].signature))?;
            i += 1;
        }
        Ok(())
    }

    /// Visits a call of a function that the contract defines.
    fn traverse_call_user_defined<W: Words>(
        &mut self,
        words: &W,
        builder: &mut InstrSeqBuilder,
        expr: &SymbolicExpression,
        name: &str,
        args: &[SymbolicExpression],
    ) -> (result: Result<(), GeneratorError>)
        requires
            old(self).wf(),
            old(builder).wf(),
        ensures
            final(self).wf(),
            final(builder).wf(),
            final(builder).seq == old(builder).seq,
            final(builder).grew_from(*old(builder)),
            result is Ok ==> stage(final(self)@, final(builder)@).grew_from(
                stage(old(self)@, old(builder)@),
            ),
            progress(*final(self), *final(builder), result) == user_defined_effect(
                words,
                Progress::start(old(self)@, old(builder)@),
                *expr,
                name@,
                args@,
            ),
        decreases args@, 1int, 0int,
    {
        // WORKAROUND: the typechecker in epoch < 2.1 fails to set correct types for functions
        //             arguments. We set them ourselves. We don't make the distinction between
        //             epochs since it would require a deeper modification and it doesn't impact
        //             the newer ones.
        let function = match self.get_function_type(name) {
            Some(FunctionType::Fixed(function)) => Some(share(function)),
            _ => None,
        };
        proof {
            lemma_no_growth(stage(self@, builder@));
        }
        if let Some(function) = function {
            self.set_argument_types(args, &function)?;
            proof {
                lemma_analysis_changed(old(self)@, self@.analysis, builder@);
            }
        }
        self.traverse_args(words, builder, args)?;

        let return_ty = match self.get_expr_type(expr) {
            Some(ty) => share(ty),
            None => return Err(type_error("function call expression must be typed")),
        };
        self.visit_call_user_defined(builder, &return_ty, name)
    }
}

} // verus!
