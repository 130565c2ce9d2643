//! Calls into `clarity`.
use clarity::vm::types::ASCIIData;
use clarity::vm::variables::NativeVariables as Vm;
use clarity::vm::ClarityVersion as VmVersion;
use vstd::prelude::*;

use crate::analysis::ClarityVersion;
use crate::clarity_vm::NativeVariables as Own;

verus! {

/// A variable that every contract has.
#[derive(Debug, Clone, Copy, PartialEq, Eq, Structural)]
pub enum NativeVariables {
    ContractCaller,
    TxSender,
    TxSponsor,
    BlockHeight,
    StacksBlockHeight,
    TenureHeight,
    BurnBlockHeight,
    NativeNone,
    NativeTrue,
    NativeFalse,
    TotalLiquidMicroSTX,
    Regtest,
    Mainnet,
    ChainId,
}

/// A number below sixteen as a character.
pub open spec fn hex_digit(value: u8) -> char {
    if value < 10 {
        (value + 48) as char
    } else {
        (value + 87) as char
    }
}

/// How a byte of an ASCII string prints: as the character that it is where that is
/// printable and no mark of quotation, else with a backslash.
pub open spec fn escaped_byte(byte: u8) -> Seq<char> {
    if byte == 9 {
        seq!['\\', 't']
    } else if byte == 10 {
        seq!['\\', 'n']
    } else if byte == 13 {
        seq!['\\', 'r']
    } else if byte == 34 || byte == 39 || byte == 92 {
        seq!['\\', byte as char]
    } else if 32 <= byte <= 126 {
        seq![byte as char]
    } else {
        seq!['\\', 'x', hex_digit(byte / 16), hex_digit(byte % 16)]
    }
}

/// How the bytes of an ASCII string print, one after the other.
pub open spec fn escaped(data: Seq<u8>) -> Seq<char>
    decreases data.len(),
{
    if data.len() == 0 {
        Seq::empty()
    } else {
        escaped_byte(data[0]) + escaped(data.skip(1))
    }
}

/// How an ASCII string prints: between quotation marks, with escapes.
pub open spec fn ascii_display(data: Seq<u8>) -> Seq<char> {
    seq!['"'] + escaped(data) + seq!['"']
}

/// Whether a text starts with a quotation mark, as no identifier does.
pub open spec fn is_quoted(text: Seq<char>) -> bool {
    text.len() > 0 && text[0] == '"'
}

/// A printed ASCII string starts with a quotation mark.
pub proof fn lemma_display_is_quoted(data: Seq<u8>)
    ensures
        is_quoted(ascii_display(data)),
{
}

/// Bytes that print in the same way, each followed by something, are the same.
proof fn lemma_same_escape(left: u8, left_rest: Seq<char>, right: u8, right_rest: Seq<char>)
    requires
        escaped_byte(left) + left_rest == escaped_byte(right) + right_rest,
    ensures
        left == right,
        left_rest == right_rest,
{
    let whole = escaped_byte(left) + left_rest;
    let again = escaped_byte(right) + right_rest;
    assert(whole[0] == escaped_byte(left)[0] && again[0] == escaped_byte(right)[0]);
    if whole[0] == '\\' {
        assert(whole[1] == escaped_byte(left)[1] && again[1] == escaped_byte(right)[1]);
        if whole[1] == 'x' {
            assert(whole[2] == escaped_byte(left)[2] && again[2] == escaped_byte(right)[2]);
            assert(whole[3] == escaped_byte(left)[3] && again[3] == escaped_byte(right)[3]);
        }
    }
    assert(left == right);
    assert(left_rest =~= whole.skip(escaped_byte(left).len() as int));
    assert(right_rest =~= again.skip(escaped_byte(right).len() as int));
}

/// Strings that print in the same way are the same.
proof fn lemma_escaped_is_injective(left: Seq<u8>, right: Seq<u8>)
    requires
        escaped(left) == escaped(right),
    ensures
        left == right,
    decreases left.len(),
{
    if left.len() > 0 && right.len() > 0 {
        lemma_same_escape(left[0], escaped(left.skip(1)), right[0], escaped(right.skip(1)));
        lemma_escaped_is_injective(left.skip(1), right.skip(1));
        assert(left =~= seq![left[0]] + left.skip(1));
        assert(right =~= seq![right[0]] + right.skip(1));
    } else if left.len() > 0 {
        assert(escaped(left).len() > 0);
    } else if right.len() > 0 {
        assert(escaped(right).len() > 0);
    } else {
        assert(left =~= right);
    }
}

/// Strings that print in the same way between quotation marks are the same.
pub proof fn lemma_display_is_injective(left: Seq<u8>, right: Seq<u8>)
    requires
        ascii_display(left) == ascii_display(right),
    ensures
        left == right,
{
    let inner = |text: Seq<char>| text.subrange(1, text.len() - 1);
    assert(inner(ascii_display(left)) =~= escaped(left));
    assert(inner(ascii_display(right)) =~= escaped(right));
    lemma_escaped_is_injective(left, right);
}

/// Whether a function that every contract of a version has is called `name`.
pub uninterp spec fn is_reserved_function(name: Seq<char>, version: ClarityVersion) -> bool;

/// The variable that every contract of a version has under a name.
pub open spec fn native_variable(name: Seq<char>, version: ClarityVersion) -> Option<
    NativeVariables,
> {
    if name == "contract-caller"@ {
        Some(NativeVariables::ContractCaller)
    } else if name == "tx-sender"@ {
        Some(NativeVariables::TxSender)
    } else if name == "block-height"@ {
        Some(NativeVariables::BlockHeight)
    } else if name == "burn-block-height"@ {
        Some(NativeVariables::BurnBlockHeight)
    } else if name == "none"@ {
        Some(NativeVariables::NativeNone)
    } else if name == "true"@ {
        Some(NativeVariables::NativeTrue)
    } else if name == "false"@ {
        Some(NativeVariables::NativeFalse)
    } else if name == "stx-liquid-supply"@ {
        Some(NativeVariables::TotalLiquidMicroSTX)
    } else if name == "is-in-regtest"@ {
        Some(NativeVariables::Regtest)
    } else if version is Clarity2 && name == "tx-sponsor?"@ {
        Some(NativeVariables::TxSponsor)
    } else if version is Clarity2 && name == "is-in-mainnet"@ {
        Some(NativeVariables::Mainnet)
    } else if version is Clarity2 && name == "chain-id"@ {
        Some(NativeVariables::ChainId)
    } else {
        None
    }
}

/// How an ASCII string prints.
///
/// Trusted: `<clarity::vm::types::ASCIIData as Display>::fmt` writes a quotation mark, each
/// byte by `std::ascii::escape_default`, and a quotation mark.
#[verifier::external_body]
pub(crate) fn ascii_to_string(data: &Vec<u8>) -> (text: String)
    ensures
        text@ == ascii_display(data@),
{
    ASCIIData { data: data.clone() }.to_string()
}

/// The variable that every contract of a version has under a name.
///
/// Trusted: `clarity::vm::variables::NativeVariables::lookup_by_name_at_version` looks the
/// name up in a fixed table and returns its variable where the version has it. The table
/// has no entry for `StacksBlockHeight` and `TenureHeight`.
#[verifier::external_body]
pub(crate) fn lookup_native_variable(name: &str, version: ClarityVersion) -> (result: Option<
    NativeVariables,
>)
    ensures
        result == native_variable(name@, version),
{
    let version = match version {
        ClarityVersion::Clarity1 => VmVersion::Clarity1,
        ClarityVersion::Clarity2 => VmVersion::Clarity2,
    };
    Vm::lookup_by_name_at_version(name, &version).map(|variable| match variable {
        Vm::ContractCaller => Own::ContractCaller, Vm::TxSender => Own::TxSender,
        Vm::TxSponsor => Own::TxSponsor, Vm::BlockHeight => Own::BlockHeight,
        Vm::BurnBlockHeight => Own::BurnBlockHeight, Vm::NativeNone => Own::NativeNone,
        Vm::NativeTrue => Own::NativeTrue, Vm::NativeFalse => Own::NativeFalse,
        Vm::TotalLiquidMicroSTX => Own::TotalLiquidMicroSTX, Vm::Regtest => Own::Regtest,
        Vm::Mainnet => Own::Mainnet, Vm::ChainId => Own::ChainId,
    })
}

/// Whether a variable that every contract of a version has is called `name`.
///
/// Trusted: `clarity::vm::variables::is_reserved_name` looks the name up as
/// `NativeVariables::lookup_by_name_at_version` does.
#[verifier::external_body]
pub(crate) fn is_reserved_variable_name(name: &str, version: ClarityVersion) -> (result: bool)
    ensures
        result == native_variable(name@, version) is Some,
{
    let version = match version {
        ClarityVersion::Clarity1 => VmVersion::Clarity1,
        ClarityVersion::Clarity2 => VmVersion::Clarity2,
    };
    clarity::vm::variables::is_reserved_name(name, &version)
}

/// Whether a function that every contract of a version has is called `name`.
///
/// Trusted: whether `clarity::vm::functions::lookup_reserved_functions` returns a function
/// depends on its arguments alone.
#[verifier::external_body]
pub(crate) fn is_reserved_function_name(name: &str, version: ClarityVersion) -> (result: bool)
    ensures
        result == is_reserved_function(name@, version),
{
    let version = match version {
        ClarityVersion::Clarity1 => VmVersion::Clarity1,
        ClarityVersion::Clarity2 => VmVersion::Clarity2,
    };
    clarity::vm::functions::lookup_reserved_functions(name, &version).is_some()
}

} // verus!
