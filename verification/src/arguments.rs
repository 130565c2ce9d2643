//! Picking the arguments of a word.
use vstd::prelude::*;
use vstd::string::StringExecFns;

use crate::analysis::{SymbolicExpression, SymbolicExpressionType};
use crate::error::{Failure, GeneratorError};

verus! {

/// A digit as a character.
pub open spec fn digit(value: nat) -> char {
    ((48 + value) as u8) as char
}

/// A number in decimal.
pub open spec fn decimal(number: nat) -> Seq<char>
    decreases number,
{
    if number < 10 {
        seq![digit(number)]
    } else {
        decimal(number / 10).push(digit(number % 10))
    }
}

/// How the first `n` arguments print, with commas between them.
pub open spec fn printed_elements(args: Seq<SymbolicExpression>, n: nat) -> Seq<char>
    decreases n,
{
    if n == 0 || n > args.len() {
        Seq::empty()
    } else if n == 1 {
        args[0].printed@
    } else {
        printed_elements(args, (n - 1) as nat) + ", "@ + args[n - 1].printed@
    }
}

/// How arguments print: as a list between brackets.
pub open spec fn printed_arguments(args: Seq<SymbolicExpression>) -> Seq<char> {
    "["@ + printed_elements(args, args.len()) + "]"@
}

/// The failure for arguments that lack what is asked of the one at position `n`.
pub open spec fn lacks(args: Seq<SymbolicExpression>, what: Seq<char>, n: nat) -> Failure {
    Failure::InternalError(printed_arguments(args) + what + decimal(n))
}

/// How arguments print.
fn print_arguments(args: &[SymbolicExpression]) -> (text: String)
    ensures
        text@ == printed_arguments(args@),
{
    let mut text = "[".to_owned();
    let mut i: usize = 0;
    assert("["@ + Seq::empty() =~= "["@);
    while i < args.len()
        invariant
            i <= args@.len(),
            text@ == "["@ + printed_elements(args@, i as nat),
        decreases args@.len() - i,
    {
        let ghost before = text@;
        if i > 0 {
            text.append(", ");
        }
        text.append(args[i].printed.as_str());
        assert(text@ =~= "["@ + printed_elements(args@, (i + 1) as nat));
        i += 1;
    }
    text.append("]");
    text
}

/// Appends a number in decimal.
fn append_decimal(text: &mut String, number: usize)
    ensures
        final(text)@ == old(text)@ + decimal(number as nat),
    decreases number,
{
    if number >= 10 {
        append_decimal(text, number / 10);
    }
    let ghost before = text@;
    let last: u8 = (number % 10) as u8;
    text.append(digit_text(last));
    assert(text@ =~= old(text)@ + decimal(number as nat));
}

/// A digit as a text.
fn digit_text(value: u8) -> (text: &'static str)
    requires
        value < 10,
    ensures
        text@ == seq![digit(value as nat)],
{
    proof {
        reveal_strlit("0");
        reveal_strlit("1");
        reveal_strlit("2");
        reveal_strlit("3");
        reveal_strlit("4");
        reveal_strlit("5");
        reveal_strlit("6");
        reveal_strlit("7");
        reveal_strlit("8");
        reveal_strlit("9");
    }
    let text = match value {
        0 => "0",
        1 => "1",
        2 => "2",
        3 => "3",
        4 => "4",
        5 => "5",
        6 => "6",
        7 => "7",
        8 => "8",
        _ => "9",
    };
    assert(text@ =~= seq![digit(value as nat)]);
    text
}

/// The error for arguments that lack what is asked of the one at position `n`.
fn missing(args: &[SymbolicExpression], what: &str, n: usize) -> (error: GeneratorError)
    ensures
        error@ == lacks(args@, what@, n as nat),
{
    let mut text = print_arguments(args);
    text.append(what);
    append_decimal(&mut text, n);
    GeneratorError::InternalError(text)
}

/// The arguments of a word.
pub trait ArgumentsExt {
    /// The arguments.
    spec fn arguments(&self) -> Seq<SymbolicExpression>;

    /// The argument at position `n`.
    fn get_expr(&self, n: usize) -> (result: Result<&SymbolicExpression, GeneratorError>)
        ensures
            match result {
                Ok(expr) => n < self.arguments().len() && *expr == self.arguments()[n as int],
                Err(error) => n >= self.arguments().len() && error@ == lacks(
                    self.arguments(),
                    " does not have an argument of index "@,
                    n as nat,
                ),
            },
    ;

    /// The name at position `n`.
    fn get_name(&self, n: usize) -> (result: Result<&str, GeneratorError>)
        ensures
            if n >= self.arguments().len() {
                &&& result matches Err(error)
                &&& error@ == lacks(
                    self.arguments(),
                    " does not have an argument of index "@,
                    n as nat,
                )
            } else {
                match self.arguments()[n as int].expr {
                    SymbolicExpressionType::Atom(name) => result matches Ok(found) && found@
                        == name@,
                    _ => result matches Err(error) && error@ == lacks(
                        self.arguments(),
                        " does not have a name at argument index "@,
                        n as nat,
                    ),
                }
            },
    ;

    /// The list at position `n`.
    fn get_list(&self, n: usize) -> (result: Result<&[SymbolicExpression], GeneratorError>)
        ensures
            if n >= self.arguments().len() {
                &&& result matches Err(error)
                &&& error@ == lacks(
                    self.arguments(),
                    " does not have an argument of index "@,
                    n as nat,
                )
            } else {
                match self.arguments()[n as int].expr {
                    SymbolicExpressionType::List(list) => result matches Ok(found) && found@
                        == list@,
                    _ => result matches Err(error) && error@ == lacks(
                        self.arguments(),
                        " does not have a list at argument index "@,
                        n as nat,
                    ),
                }
            },
    ;
}

impl ArgumentsExt for &[SymbolicExpression] {
    open spec fn arguments(&self) -> Seq<SymbolicExpression> {
        self@
    }

    fn get_expr(&self, n: usize) -> (result: Result<&SymbolicExpression, GeneratorError>) {
        if n < self.len() {
            Ok(&self[n])
        } else {
            Err(missing(self, " does not have an argument of index ", n))
        }
    }

    fn get_name(&self, n: usize) -> (result: Result<&str, GeneratorError>) {
        match &self.get_expr(n)?.expr {
            SymbolicExpressionType::Atom(name) => Ok(name.as_str()),
            _ => Err(missing(self, " does not have a name at argument index ", n)),
        }
    }

    fn get_list(&self, n: usize) -> (result: Result<&[SymbolicExpression], GeneratorError>) {
        match &self.get_expr(n)?.expr {
            SymbolicExpressionType::List(list) => Ok(list.as_slice()),
            _ => Err(missing(self, " does not have a list at argument index ", n)),
        }
    }
}

} // verus!
