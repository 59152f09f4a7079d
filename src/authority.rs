use vstd::prelude::*;

use anchor_lang::solana_program::pubkey::Pubkey;

use crate::principal::Principal;

verus! {

/// The seed prefix under which a market's escrow authority is derived.
pub const AUTHORITY_SEED: &'static str = "market_authority";

/// The program-derived address and bump seed for the seeds `prefix` and `id`
/// under the program `program`, where one exists.
pub uninterp spec fn program_address_of(prefix: Seq<char>, id: Seq<char>, program: Seq<u8>) -> Option<(Seq<u8>, u8)>;

/// The key bytes and bump of a derived address.
pub open spec fn address_view(r: Option<(Principal, u8)>) -> Option<(Seq<u8>, u8)> {
    match r {
        Some(found) => Some((found.0@, found.1)),
        None => None,
    }
}

/// Relies on `Pubkey::try_find_program_address` of solana-program, which
/// anchor-lang re-exports: the address and bump derived from the seeds
/// depend on them and the program id alone, and there is none when a seed is
/// longer than 32 bytes.
#[verifier::external_body]
pub(crate) fn find_program_address(prefix: &str, id: &String, program_id: &Principal) -> (r: Option<(Principal, u8)>)
    ensures
        address_view(r) == program_address_of(prefix@, id@, program_id@),
        id@.len() > 32 ==> r is None,
{
    Pubkey::try_find_program_address(&[prefix.as_bytes(), id.as_bytes()], &Pubkey::new_from_array(program_id.key))
        .map(|(address, bump)| (Principal { key: address.to_bytes() }, bump))
}

} // verus!
