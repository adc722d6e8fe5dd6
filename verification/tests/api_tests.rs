use vm_core::api::{L1BatchTeeProofForL1, ProofGenerationDataRequest,
    RegisterTeeAttestationRequest, RegisterTeeAttestationResponse, SubmitProofResponse,
    SubmitTeeProofRequest, SubmitTeeProofResponse, TeeProofGenerationDataRequest, TeeType};
use vm_core::block::{Address, VmExecutionResult, create_test_block_params};
use vm_core::bytes_iter::{FixedLengthIterator, IntoFixedLengthByteIterator};
use vm_core::memory::{MemoryPage, aux_heap_page_from_base, code_page_candidate_from_base,
    heap_page_from_base, stack_page_from_base, ENTRY_POINT_PAGE, INITIAL_BASE_PAGE};
use vm_core::word::{Word, bytecode_len_in_words};

#[test]
fn api_types_hold_their_fields() {
    let _ = ProofGenerationDataRequest {};
    let _ = SubmitProofResponse::Success;
    let _ = SubmitProofResponse::Error(String::from("no proof"));
    let _ = SubmitTeeProofResponse::Success;
    let _ = RegisterTeeAttestationResponse::Success;
    let req = TeeProofGenerationDataRequest { tee_type: TeeType::Sgx };
    assert_eq!(req.tee_type, TeeType::Sgx);
    let proof = L1BatchTeeProofForL1 {
        signature: vec![1, 2],
        pubkey: vec![3],
        proof: vec![4, 5, 6],
        tee_type: TeeType::Sgx,
    };
    let submit = SubmitTeeProofRequest(Box::new(proof));
    assert_eq!(submit.0.proof, vec![4, 5, 6]);
    let attestation = RegisterTeeAttestationRequest {
        attestation: vec![7, 8],
        pubkey: vec![9],
    };
    assert_eq!(attestation.attestation, vec![7, 8]);
    assert_eq!(attestation.pubkey, vec![9]);
}

#[test]
fn block_params_exact_values() {
    let aa_hash = Word::from_u64(77);
    let (context, properties) = create_test_block_params(aa_hash, true);
    assert_eq!(context.block_number, 1);
    assert_eq!(context.block_timestamp, 1000);
    assert_eq!(context.l1_gas_price, 50_000_000_000);
    assert_eq!(context.fair_l2_gas_price, 250_000_000);
    assert_eq!(context.operator_address, Address::zero());
    assert_eq!(properties.default_aa_code_hash, aa_hash);
    assert!(properties.zkporter_is_available);
}

#[test]
fn vm_execution_result_variants() {
    let ok = VmExecutionResult::Success(vec![1]);
    let revert = VmExecutionResult::Revert(vec![2]);
    let panic = VmExecutionResult::Panic;
    let unfinished = VmExecutionResult::MostLikelyDidNotFinish(Address::zero(), 3);
    for r in [ok, revert, panic, unfinished] {
        let _ = format!("{r:?}");
    }
}

#[test]
fn page_helpers_offsets() {
    let base = MemoryPage(INITIAL_BASE_PAGE);
    assert_eq!(code_page_candidate_from_base(base), MemoryPage(8));
    assert_eq!(stack_page_from_base(base), MemoryPage(9));
    assert_eq!(heap_page_from_base(base), MemoryPage(10));
    assert_eq!(aux_heap_page_from_base(base), MemoryPage(11));
    assert_eq!(ENTRY_POINT_PAGE, 8);
}

#[test]
fn bytecode_len_reads_hash_bytes_two_and_three() {
    // Big-endian bytes 2 and 3 of the hash carry the length in words:
    // 0x0102 = 258.
    let hash = Word { limb0: 0, limb1: 0, limb2: 0, limb3: 0x0102u64 << 32 };
    assert_eq!(bytecode_len_in_words(&hash), 258);
}

#[test]
fn byte_iterators_walk_all_32_bytes() {
    let data: Vec<u8> = (0u8..32).collect();
    let word = vm_core::word::word_from_be(&data, 0);
    let mut be_iter = word.into_be_iter();
    let mut be_seen: Vec<u8> = Vec::new();
    while let Some(b) = be_iter.next() {
        be_seen.push(b);
    }
    assert_eq!(be_seen, data);
    assert_eq!(be_iter.next(), None);

    let mut le_iter = word.into_le_iter();
    let mut le_seen: Vec<u8> = Vec::new();
    while let Some(b) = le_iter.next() {
        le_seen.push(b);
    }
    let mut reversed = data.clone();
    reversed.reverse();
    assert_eq!(le_seen, reversed);
}
