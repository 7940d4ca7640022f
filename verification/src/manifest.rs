//! The boot manifest: the public parameters of the claim that a run proves.

use vstd::prelude::*;

use crate::error::ParseError;
use crate::hash::{
    hash_text, hex_bytes, hex_text, is_hash_text, lemma_hash_text_reads_back, parse_hash,
};
use crate::number::{
    decimal_text, is_number_text, lemma_decimal_text_reads_back, number_of_text, number_text,
    parse_number,
};

verus! {

/// The parameters of a claim as they are typed in: three hashes and two
/// numbers, all still text.
#[derive(Clone, Debug)]
pub struct SP1KonaCliArgs {
    /// Hash of the L1 head block, as 64 hexadecimal digits.
    pub l1_head: String,
    /// Starting output root, as 64 hexadecimal digits.
    pub l2_output_root: String,
    /// Claimed output root, as 64 hexadecimal digits.
    pub l2_claim: String,
    /// Height of the claimed L2 block, in decimal.
    pub l2_claim_block: String,
    /// Identifier of the L2 chain, in decimal.
    pub chain_id: String,
}

/// The boot manifest of a claim.
#[derive(Clone, Copy, Debug, PartialEq, Eq)]
pub struct BootInfoWithoutRollupConfig {
    /// Hash of the L1 block that the derivation starts from.
    pub l1_head: [u8; 32],
    /// Output root that the L2 chain starts from.
    pub l2_output_root: [u8; 32],
    /// Output root that is claimed.
    pub l2_claim: [u8; 32],
    /// Height of the L2 block that the claim is about.
    pub l2_claim_block: u64,
    /// Identifier of the L2 chain.
    pub chain_id: u64,
}

/// What a manifest holds, as plain mathematics: each hash as a sequence of
/// bytes, each number as it is.
pub struct BootInfoView {
    pub l1_head: Seq<u8>,
    pub l2_output_root: Seq<u8>,
    pub l2_claim: Seq<u8>,
    pub l2_claim_block: u64,
    pub chain_id: u64,
}

impl View for BootInfoWithoutRollupConfig {
    type V = BootInfoView;

    open spec fn view(&self) -> BootInfoView {
        BootInfoView {
            l1_head: self.l1_head@,
            l2_output_root: self.l2_output_root@,
            l2_claim: self.l2_claim@,
            l2_claim_block: self.l2_claim_block,
            chain_id: self.chain_id,
        }
    }
}

impl BootInfoView {
    /// Whether each hash is 32 bytes long, as the hashes of every manifest are.
    pub open spec fn has_hash_lengths(&self) -> bool {
        &&& self.l1_head.len() == 32
        &&& self.l2_output_root.len() == 32
        &&& self.l2_claim.len() == 32
    }
}

impl SP1KonaCliArgs {
    /// Whether both numbers are well written.
    pub open spec fn numbers_are_valid(&self) -> bool {
        is_number_text(self.l2_claim_block@) && is_number_text(self.chain_id@)
    }

    /// Whether all three hashes are well written.
    pub open spec fn hashes_are_valid(&self) -> bool {
        is_hash_text(self.l1_head@) && is_hash_text(self.l2_output_root@) && is_hash_text(
            self.l2_claim@,
        )
    }

    /// Whether a manifest can be built from these parameters.
    pub open spec fn is_valid(&self) -> bool {
        self.numbers_are_valid() && self.hashes_are_valid()
    }

    /// The error that invalid parameters are rejected with: a malformed hash
    /// always counts, a malformed number where the hashes are in order.
    pub open spec fn rejection(&self) -> ParseError {
        if self.hashes_are_valid() {
            ParseError::InvalidNumber
        } else {
            ParseError::InvalidHash
        }
    }
}

impl BootInfoWithoutRollupConfig {
    /// Whether every field of this manifest holds what the matching text of
    /// `args` spells.
    pub open spec fn spelled_by(&self, args: &SP1KonaCliArgs) -> bool {
        &&& self.l1_head@ == hex_bytes(args.l1_head@)
        &&& self.l2_output_root@ == hex_bytes(args.l2_output_root@)
        &&& self.l2_claim@ == hex_bytes(args.l2_claim@)
        &&& self.l2_claim_block == number_of_text(args.l2_claim_block@)
        &&& self.chain_id == number_of_text(args.chain_id@)
    }

    /// Whether `args` is this manifest written out: the hashes in lower-case
    /// hexadecimal, the numbers in decimal.
    pub open spec fn written_as(&self, args: &SP1KonaCliArgs) -> bool {
        &&& args.l1_head@ == hex_text(self.l1_head@)
        &&& args.l2_output_root@ == hex_text(self.l2_output_root@)
        &&& args.l2_claim@ == hex_text(self.l2_claim@)
        &&& args.l2_claim_block@ == decimal_text(self.l2_claim_block as nat)
        &&& args.chain_id@ == decimal_text(self.chain_id as nat)
    }

    /// Writes the manifest out as the parameters that it is built from.
    pub fn to_args(&self) -> (args: SP1KonaCliArgs)
        ensures
            self.written_as(&args),
    {
        SP1KonaCliArgs {
            l1_head: hash_text(&self.l1_head),
            l2_output_root: hash_text(&self.l2_output_root),
            l2_claim: hash_text(&self.l2_claim),
            l2_claim_block: number_text(self.l2_claim_block),
            chain_id: number_text(self.chain_id),
        }
    }

    /// Builds the manifest from the parameters as typed in.
    ///
    /// Either every field parses and the whole manifest is returned, or
    /// nothing is: a malformed hash gives `InvalidHash`; with all three
    /// hashes in order, a malformed number gives `InvalidNumber`.
    pub fn build(args: &SP1KonaCliArgs) -> (built: Result<Self, ParseError>)
        ensures
            built is Ok <==> args.is_valid(),
            built matches Ok(manifest) ==> manifest.spelled_by(args),
            built matches Err(e) ==> e == args.rejection(),
    {
        let l1_head = match parse_hash(args.l1_head.as_str()) {
            Ok(hash) => hash,
            Err(e) => {
                return Err(e);
            },
        };
        let l2_output_root = match parse_hash(args.l2_output_root.as_str()) {
            Ok(hash) => hash,
            Err(e) => {
                return Err(e);
            },
        };
        let l2_claim = match parse_hash(args.l2_claim.as_str()) {
            Ok(hash) => hash,
            Err(e) => {
                return Err(e);
            },
        };
        let l2_claim_block = match parse_number(args.l2_claim_block.as_str()) {
            Ok(number) => number,
            Err(e) => {
                return Err(e);
            },
        };
        let chain_id = match parse_number(args.chain_id.as_str()) {
            Ok(number) => number,
            Err(e) => {
                return Err(e);
            },
        };
        Ok(BootInfoWithoutRollupConfig { l1_head, l2_output_root, l2_claim, l2_claim_block, chain_id })
    }
}

/// Parameters with a malformed hash are never built into a manifest, and are
/// rejected with `InvalidHash` whatever else they hold.
pub proof fn lemma_malformed_hash_is_rejected(args: SP1KonaCliArgs)
    requires
        !is_hash_text(args.l1_head@) || !is_hash_text(args.l2_output_root@) || !is_hash_text(
            args.l2_claim@,
        ),
    ensures
        !args.is_valid(),
        args.rejection() == ParseError::InvalidHash,
{
}

/// Parameters that are the text of a manifest are valid, and the one manifest
/// that they spell is that manifest: every hash comes back as the 32 bytes it
/// was written from, and every number as itself.
pub proof fn lemma_manifest_text_reads_back(
    manifest: BootInfoWithoutRollupConfig,
    args: SP1KonaCliArgs,
    built: BootInfoWithoutRollupConfig,
)
    requires
        manifest.written_as(&args),
        built.spelled_by(&args),
    ensures
        args.is_valid(),
        built@ == manifest@,
{
    broadcast use vstd::array::array_len_matches_n;

    lemma_hash_text_reads_back(manifest.l1_head@);
    lemma_hash_text_reads_back(manifest.l2_output_root@);
    lemma_hash_text_reads_back(manifest.l2_claim@);
    lemma_decimal_text_reads_back(manifest.l2_claim_block as nat);
    lemma_decimal_text_reads_back(manifest.chain_id as nat);
}

} // verus!
