//! What the generator reads of an analysed contract: its expressions, and what the
//! type checker found out about them.
use std::collections::HashMap;
use std::rc::Rc;
use vstd::hash_map::StringHashMap;
use vstd::prelude::*;
use vstd::utf8::encode_utf8;

use crate::types::{FunctionType, TypeSignature};

verus! {

/// The version of the language that a contract is written in.
#[derive(Debug, Clone, Copy, PartialEq, Eq, Structural)]
pub enum ClarityVersion {
    Clarity1,
    Clarity2,
}

/// An expression of a contract. The identifier is unique in the contract.
#[derive(Debug)]
pub struct SymbolicExpression {
    pub expr: SymbolicExpressionType,
    pub id: u64,
    /// How the expression prints in the message of an error.
    pub printed: String,
}

/// The forms of an expression.
#[derive(Debug)]
pub enum SymbolicExpressionType {
    AtomValue(Value),
    Atom(String),
    List(Vec<SymbolicExpression>),
    LiteralValue(Value),
    /// A reference to a field of a trait.
    Field,
    /// A reference to a trait.
    TraitReference,
}

/// A value that is written out in a contract.
#[derive(Debug)]
pub enum Value {
    Int(i128),
    UInt(u128),
    Bool(bool),
    Sequence(SequenceData),
    Principal(PrincipalData),
    Tuple(Printed),
    Optional(Printed),
    Response(Printed),
    CallableContract(Printed),
}

/// A value of which only the printed form is kept.
#[derive(Debug)]
pub struct Printed {
    pub text: String,
}

/// A value with a length.
#[derive(Debug)]
pub enum SequenceData {
    Buffer(Vec<u8>),
    List(Printed),
    String(CharType),
}

/// The characters of a string: bytes, or the UTF-8 encoding of each character.
#[derive(Debug)]
pub enum CharType {
    ASCII(Vec<u8>),
    UTF8(Vec<Vec<u8>>),
}

/// The name of a contract, of at most 128 bytes.
#[derive(Debug)]
pub struct ContractName {
    text: String,
}

/// The principal of an account: a version byte and a hash.
#[derive(Debug)]
pub struct StandardPrincipalData {
    pub version: u8,
    pub hash: [u8; 20],
}

/// A principal.
#[derive(Debug)]
pub enum PrincipalData {
    Standard(StandardPrincipalData),
    /// A contract: who deployed it, and its name.
    Contract(StandardPrincipalData, ContractName),
}

impl ContractName {
    #[verifier::type_invariant]
    spec fn is_short(self) -> bool {
        encode_utf8(self.text@).len() <= 128
    }

    pub closed spec fn view(&self) -> Seq<char> {
        self.text@
    }

    /// Takes a name that is short enough.
    pub fn new(text: String) -> (result: Option<ContractName>)
        ensures
            match result {
                Some(name) => encode_utf8(text@).len() <= 128 && name@ == text@,
                None => encode_utf8(text@).len() > 128,
            },
    {
        if text.as_str().as_bytes().len() <= 128 {
            Some(ContractName { text })
        } else {
            None
        }
    }

    /// The bytes of the name.
    pub fn as_bytes(&self) -> (bytes: &[u8])
        ensures
            bytes@ == encode_utf8(self@),
            bytes@.len() <= 128,
    {
        proof {
            use_type_invariant(self);
        }
        self.text.as_str().as_bytes()
    }
}

/// A contract that has been analysed.
pub struct ContractAnalysis {
    /// The top-level expressions, in order.
    pub expressions: Vec<SymbolicExpression>,
    /// The types of the expressions, by identifier, where the contract was type checked.
    pub type_map: Option<HashMap<u64, Rc<TypeSignature>>>,
    pub public_function_types: StringHashMap<FunctionType>,
    pub read_only_function_types: StringHashMap<FunctionType>,
    pub private_function_types: StringHashMap<FunctionType>,
    pub clarity_version: ClarityVersion,
}

/// The mathematical value of a `ContractAnalysis`.
#[verifier::ext_equal]
pub struct AnalysisView {
    pub expressions: Seq<SymbolicExpression>,
    pub types: Option<Map<u64, Rc<TypeSignature>>>,
    pub public_functions: Map<Seq<char>, FunctionType>,
    pub read_only_functions: Map<Seq<char>, FunctionType>,
    pub private_functions: Map<Seq<char>, FunctionType>,
    pub version: ClarityVersion,
}

impl AnalysisView {
    /// The type of an expression.
    pub open spec fn type_of(self, expr: SymbolicExpression) -> Option<Rc<TypeSignature>> {
        match self.types {
            Some(types) => if types.contains_key(expr.id) {
                Some(types[expr.id])
            } else {
                None
            },
            None => None,
        }
    }

    /// The analysis with another type for an expression.
    pub open spec fn with_type(
        self,
        expr: SymbolicExpression,
        ty: Rc<TypeSignature>,
    ) -> AnalysisView {
        match self.types {
            Some(types) => AnalysisView { types: Some(types.insert(expr.id, ty)), ..self },
            None => self,
        }
    }

    /// The type of a function: that of the public one of this name, else that of the
    /// read-only one, else that of the private one.
    pub open spec fn function_type(self, name: Seq<char>) -> Option<FunctionType> {
        if self.public_functions.contains_key(name) {
            Some(self.public_functions[name])
        } else if self.read_only_functions.contains_key(name) {
            Some(self.read_only_functions[name])
        } else if self.private_functions.contains_key(name) {
            Some(self.private_functions[name])
        } else {
            None
        }
    }
}

/// What a map holds under a key.
pub open spec fn lookup<V>(map: Map<Seq<char>, V>, key: Seq<char>) -> Option<V> {
    if map.contains_key(key) {
        Some(map[key])
    } else {
        None
    }
}

impl ContractAnalysis {
    pub open spec fn view(&self) -> AnalysisView {
        AnalysisView {
            expressions: self.expressions@,
            types: match self.type_map {
                Some(types) => Some(types@),
                None => None,
            },
            public_functions: self.public_function_types@,
            read_only_functions: self.read_only_function_types@,
            private_functions: self.private_function_types@,
            version: self.clarity_version,
        }
    }

    /// A contract with the given expressions and no functions.
    pub fn new(
        expressions: Vec<SymbolicExpression>,
        type_map: Option<HashMap<u64, Rc<TypeSignature>>>,
        clarity_version: ClarityVersion,
    ) -> (analysis: ContractAnalysis)
        ensures
            analysis.expressions == expressions,
            analysis.type_map == type_map,
            analysis.clarity_version == clarity_version,
            analysis@.public_functions == Map::<Seq<char>, FunctionType>::empty(),
            analysis@.read_only_functions == Map::<Seq<char>, FunctionType>::empty(),
            analysis@.private_functions == Map::<Seq<char>, FunctionType>::empty(),
    {
        ContractAnalysis {
            expressions,
            type_map,
            public_function_types: StringHashMap::new(),
            read_only_function_types: StringHashMap::new(),
            private_function_types: StringHashMap::new(),
            clarity_version,
        }
    }

    /// Notes the type of a public function.
    pub fn add_public_function(&mut self, name: String, ty: FunctionType)
        ensures
            final(self)@ == (AnalysisView {
                public_functions: old(self)@.public_functions.insert(name@, ty),
                ..old(self)@
            }),
    {
        self.public_function_types.insert(name, ty);
    }

    /// Notes the type of a read-only function.
    pub fn add_read_only_function(&mut self, name: String, ty: FunctionType)
        ensures
            final(self)@ == (AnalysisView {
                read_only_functions: old(self)@.read_only_functions.insert(name@, ty),
                ..old(self)@
            }),
    {
        self.read_only_function_types.insert(name, ty);
    }

    /// Notes the type of a private function.
    pub fn add_private_function(&mut self, name: String, ty: FunctionType)
        ensures
            final(self)@ == (AnalysisView {
                private_functions: old(self)@.private_functions.insert(name@, ty),
                ..old(self)@
            }),
    {
        self.private_function_types.insert(name, ty);
    }

    /// The type of the public function of this name.
    pub fn get_public_function_type(&self, name: &str) -> (result: Option<&FunctionType>)
        ensures
            deref_option(result) == lookup(self@.public_functions, name@),
    {
        self.public_function_types.get(name)
    }

    /// The type of the read-only function of this name.
    pub fn get_read_only_function_type(&self, name: &str) -> (result: Option<&FunctionType>)
        ensures
            deref_option(result) == lookup(self@.read_only_functions, name@),
    {
        self.read_only_function_types.get(name)
    }

    /// The type of the private function of this name.
    pub fn get_private_function(&self, name: &str) -> (result: Option<&FunctionType>)
        ensures
            deref_option(result) == lookup(self@.private_functions, name@),
    {
        self.private_function_types.get(name)
    }
}

/// What an optional reference refers to.
pub open spec fn deref_option<T>(reference: Option<&T>) -> Option<T> {
    match reference {
        Some(value) => Some(*value),
        None => None,
    }
}

} // verus!
