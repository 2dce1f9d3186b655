//! How a 6800 operand is read, by its tokens.
use vstd::prelude::*;
use crate::cpu6809::frontend::{operand_kind, tag, Token};
use super::isa::AddrModeParseType;

verus! {

/// The form a 6800 operand is read as: indexed where it holds a comma
/// (only `offset,x` does), else by its first token: `#` immediate, `<`
/// direct, `>` forced extended, and otherwise extended.
pub open spec fn operand_form_6800(t: Seq<Token>) -> AddrModeParseType {
    if exists|k: int| 0 <= k < t.len() && #[trigger] t[k] == Token::Comma {
        AddrModeParseType::Indexed
    } else if tag(t, 0, Token::Hash) {
        AddrModeParseType::Immediate
    } else if tag(t, 0, Token::LessThan) {
        AddrModeParseType::Direct
    } else if tag(t, 0, Token::GreaterThan) {
        AddrModeParseType::Extended(true)
    } else {
        AddrModeParseType::Extended(false)
    }
}

/// The form the 6800 operand `t` is read as.
pub fn operand_form(t: &[Token]) -> (res: AddrModeParseType)
    ensures
        res == operand_form_6800(t@),
{
    let mut k: usize = 0;
    while k < t.len()
        invariant
            k <= t@.len(),
            forall|j: int| 0 <= j < k ==> t@[j] != Token::Comma,
        decreases t@.len() - k,
    {
        if let Token::Comma = &t[k] {
            assert(t@[k as int] == Token::Comma);
            return AddrModeParseType::Indexed;
        }
        k = k + 1;
    }
    if t.len() == 0 {
        return AddrModeParseType::Extended(false);
    }
    match &t[0] {
        Token::Hash => AddrModeParseType::Immediate,
        Token::LessThan => AddrModeParseType::Direct,
        Token::GreaterThan => AddrModeParseType::Extended(true),
        _ => AddrModeParseType::Extended(false),
    }
}

/// The 6800 and the 6809 read an operand alike: immediate after `#`,
/// indexed with a comma, direct after `<`, forced extended after `>`,
/// extended otherwise. (They part only on a bracket, which the 6800 does
/// not know, and on an immediate operand holding a comma.)
pub proof fn lemma_operand_forms_agree(t: Seq<Token>)
    requires
        !tag(t, 0, Token::OpenSquareBracket),
        !(tag(t, 0, Token::Hash) && exists|k: int| 0 <= k < t.len() && #[trigger] t[k] == Token::Comma),
    ensures
        (operand_form_6800(t) is Immediate) == (operand_kind(t) is Immediate),
        (operand_form_6800(t) is Indexed) == (operand_kind(t) is Indexed),
        (operand_form_6800(t) is Direct) == (operand_kind(t) is Direct),
        (operand_form_6800(t) == AddrModeParseType::Extended(true)) == (operand_kind(t) is ForcedExtended),
        (operand_form_6800(t) == AddrModeParseType::Extended(false)) == (operand_kind(t) is Extended),
{
}

} // verus!
