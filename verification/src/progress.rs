//! What a step of the generator does: to its own state, to the function that is being
//! built, and whether it fails.
use vstd::prelude::*;

use crate::builder::InstrSeqBuilder;
use crate::error::{failure_of, Failure, GeneratorError};
use crate::generator::{GeneratorView, WasmGenerator};
use crate::ir::{CodeView, Op};

verus! {

/// The state of the generator and of the function that is being built, and the failure
/// that ended the generation, if one did.
#[verifier::ext_equal]
pub struct Progress {
    pub generator: GeneratorView,
    pub code: CodeView,
    pub failure: Option<Failure>,
}

impl Progress {
    /// No step taken yet.
    pub open spec fn start(generator: GeneratorView, code: CodeView) -> Progress {
        Progress { generator, code, failure: None }
    }

    /// The generation ends here.
    pub open spec fn fail(self, failure: Failure) -> Progress {
        Progress { failure: Some(failure), ..self }
    }

    /// More instructions, unless the generation has ended.
    pub open spec fn emit_all(self, ops: Seq<Op>) -> Progress {
        if self.failure is None {
            Progress { code: self.code.emit_all(ops), ..self }
        } else {
            self
        }
    }

    /// A call of the function of a name, unless the generation has ended. A function that
    /// is not there ends it.
    pub open spec fn call(self, name: Seq<char>) -> Progress {
        if self.failure is Some {
            self
        } else {
            match self.generator.module.function_named(name) {
                Some(function) => Progress { code: self.code.emit(Op::Call(function)), ..self },
                None => self.fail(missing_function(name)),
            }
        }
    }
}

/// The failure for a function that is not in the module.
pub open spec fn missing_function(name: Seq<char>) -> Failure {
    Failure::InternalError("function not found: "@ + name)
}

/// Where a step has left the generator and the function that is being built.
pub open spec fn progress<T>(
    generator: WasmGenerator,
    builder: InstrSeqBuilder,
    result: Result<T, GeneratorError>,
) -> Progress {
    Progress { generator: generator@, code: builder@, failure: failure_of(result) }
}

} // verus!
