use deploy_matcher::matcher::Address;
use deploy_matcher::matcher::CodeFormat;
use deploy_matcher::matcher::ContractDeployArgs;
use deploy_matcher::matcher::Matcher;

use alloy_dyn_abi::DynSolValue;

fn addr(byte: u8) -> Address {
    Address { bytes: vec![byte; 20] }
}

fn args(
    selector: [u8; 4],
    prefix: Vec<u8>,
    schema: &str,
) -> ContractDeployArgs {
    ContractDeployArgs {
        factory_selector: selector,
        init_code_without_args: prefix,
        source: String::from("contract C {}"),
        code_format: CodeFormat::SingleFile,
        param_types: String::from(schema),
        contract_name: String::from("C"),
        compiler_version: String::from("v0.8.24"),
        optimizations_used: Some(String::from("1")),
        runs: Some(String::from("200")),
        evm_version: None,
        via_ir: Some(false),
    }
}

const SEL: [u8; 4] = [0xc9, 0xc6, 0x53, 0x96];

/// The prefix of the concrete scenario: the selector followed by four bytes
/// of compiled bytecode, which is everything that precedes the constructor
/// arguments in the payload.
fn scenario_prefix() -> Vec<u8> {
    vec![0xc9, 0xc6, 0x53, 0x96, 0x00, 0x00, 0x00, 0x00]
}

fn scenario_matcher(schema: &str) -> Matcher {
    Matcher::new(vec![(addr(0x00), vec![args(SEL, scenario_prefix(), schema)])])
}

fn sol_addr(byte: u8) -> alloy_primitives::Address {
    alloy_primitives::Address::from([byte; 20])
}

fn encoded_pair(a: u8, b: u8) -> Vec<u8> {
    DynSolValue::Tuple(vec![
        DynSolValue::Address(sol_addr(a)),
        DynSolValue::Address(sol_addr(b)),
    ])
    .abi_encode_params()
}

fn concat(prefix: &[u8], tail: &[u8]) -> Vec<u8> {
    let mut v = prefix.to_vec();
    v.extend_from_slice(tail);
    v
}

#[test]
fn short_payload_no_match() {
    let m = scenario_matcher("(address,address)");
    // Shorter than a selector.
    assert!(m.get_constructor_args(&addr(0x00), &vec![0xc9, 0xc6, 0x53]).is_none());
    assert!(m.get_constructor_args(&addr(0x00), &vec![]).is_none());
    // A selector, but shorter than the rule's bytecode prefix.
    assert!(m.get_constructor_args(&addr(0x00), &vec![0xc9, 0xc6, 0x53, 0x96, 0x00]).is_none());
}

#[test]
fn selector_discrimination() {
    let other_sel: [u8; 4] = [0xaa, 0xbb, 0xcc, 0xdd];
    let m = Matcher::new(vec![(
        addr(0x00),
        vec![
            args(SEL, scenario_prefix(), "(address,address)"),
            args(other_sel, vec![0xaa, 0xbb, 0xcc, 0xdd], "(uint256)"),
        ],
    )]);
    let payload = concat(&scenario_prefix(), &encoded_pair(0x11, 0x22));
    // The payload's selector picks the two-address rule, not the other one.
    let decoded = m.get_constructor_args(&addr(0x00), &payload).unwrap();
    assert_eq!(
        decoded,
        DynSolValue::Tuple(vec![
            DynSolValue::Address(sol_addr(0x11)),
            DynSolValue::Address(sol_addr(0x22)),
        ])
    );
    // The same argument bytes under the other selector go to the other rule:
    // they come back as that rule's single word, never as a two-address tuple.
    let other_payload = concat(&[0xaa, 0xbb, 0xcc, 0xdd], &encoded_pair(0x11, 0x22));
    let other_decoded = m.get_constructor_args(&addr(0x00), &other_payload).unwrap();
    match other_decoded {
        DynSolValue::Tuple(values) => {
            assert_eq!(values.len(), 1);
            assert!(matches!(values[0], DynSolValue::Uint(_, 256)));
        }
        _ => panic!("expected a one-element tuple"),
    }
}

#[test]
fn decode_correctness() {
    let m = scenario_matcher("(address,address)");
    for (a, b) in [(0x11u8, 0x22u8), (0x00, 0xff), (0xab, 0xcd)] {
        let payload = concat(&scenario_prefix(), &encoded_pair(a, b));
        let decoded = m.get_constructor_args(&addr(0x00), &payload).unwrap();
        assert_eq!(
            decoded,
            DynSolValue::Tuple(vec![
                DynSolValue::Address(sol_addr(a)),
                DynSolValue::Address(sol_addr(b)),
            ])
        );
    }
}

#[test]
fn empty_schema_success() {
    let m = scenario_matcher("()");
    // The payload is exactly the prefix: zero constructor arguments.
    let decoded = m.get_constructor_args(&addr(0x00), &scenario_prefix());
    assert_eq!(decoded, Some(DynSolValue::Tuple(vec![])));
}

#[test]
fn empty_arguments_against_nonempty_schema_no_match() {
    let m = scenario_matcher("(address,address)");
    // The payload is exactly the prefix, but the schema expects parameters.
    assert!(m.get_constructor_args(&addr(0x00), &scenario_prefix()).is_none());
}

#[test]
fn garbage_suffix_fails_closed() {
    let m = scenario_matcher("(address,address)");
    // Too few bytes to hold two words.
    let payload = concat(&scenario_prefix(), &[0x13, 0x37, 0xba, 0xad, 0xf0, 0x0d]);
    assert!(m.get_constructor_args(&addr(0x00), &payload).is_none());
}

#[test]
fn round_trip() {
    let m = scenario_matcher("(address,address)");
    let encoded = encoded_pair(0x11, 0x22);
    let payload = concat(&scenario_prefix(), &encoded);
    // decode(encode(args)) == args ...
    let decoded = m.get_constructor_args(&addr(0x00), &payload).unwrap();
    assert_eq!(decoded.abi_encode_params(), encoded);
    // ... and the verification request carries encode(decode(P || encode(args)))
    // == encode(args).
    let request = m.get_verification_args(&addr(0x00), &payload).unwrap();
    assert_eq!(request.constructor_arguments, encoded);
}

#[test]
fn registry_isolation() {
    let m = scenario_matcher("(address,address)");
    let payload = concat(&scenario_prefix(), &encoded_pair(0x11, 0x22));
    // An address that was never registered: no match, no panic.
    assert!(m.get_constructor_args(&addr(0x99), &payload).is_none());
    assert!(m.get_verification_args(&addr(0x99), &payload).is_none());
    // An empty registry matches nothing.
    let empty = Matcher::new(vec![]);
    assert!(empty.get_constructor_args(&addr(0x00), &payload).is_none());
}

#[test]
fn concrete_scenario() {
    // Address 0x00..00, selector [0xc9, 0xc6, 0x53, 0x96], bytecode prefix
    // [0xc9, 0xc6, 0x53, 0x96, 0x00, 0x00, 0x00, 0x00], schema
    // "(address,address)". The payload appends the two 32-byte-padded
    // addresses 0x11..11 and 0x22..22 to the prefix.
    let m = scenario_matcher("(address,address)");
    let mut payload = scenario_prefix();
    payload.extend_from_slice(&[0x00; 12]);
    payload.extend_from_slice(&[0x11; 20]);
    payload.extend_from_slice(&[0x00; 12]);
    payload.extend_from_slice(&[0x22; 20]);
    let decoded = m.get_constructor_args(&addr(0x00), &payload).unwrap();
    assert_eq!(
        decoded,
        DynSolValue::Tuple(vec![
            DynSolValue::Address(sol_addr(0x11)),
            DynSolValue::Address(sol_addr(0x22)),
        ])
    );
}

#[test]
fn last_write_wins() {
    // Two rules under the same address and selector: the later one replaces
    // the earlier one.
    let m = Matcher::new(vec![(
        addr(0x00),
        vec![
            args(SEL, scenario_prefix(), "(uint256)"),
            args(SEL, scenario_prefix(), "(address,address)"),
        ],
    )]);
    let payload = concat(&scenario_prefix(), &encoded_pair(0x11, 0x22));
    let decoded = m.get_constructor_args(&addr(0x00), &payload).unwrap();
    assert_eq!(
        decoded,
        DynSolValue::Tuple(vec![
            DynSolValue::Address(sol_addr(0x11)),
            DynSolValue::Address(sol_addr(0x22)),
        ])
    );
}

#[test]
fn repeated_address_entries_merge() {
    // Two entries under the same address with distinct selectors: the later
    // entry extends the address's table, it does not displace the earlier
    // selector's rule.
    let m = Matcher::new(vec![
        (addr(0x00), vec![args(SEL, scenario_prefix(), "(address,address)")]),
        (addr(0x00), vec![args([0xaa, 0xbb, 0xcc, 0xdd], vec![0xaa, 0xbb, 0xcc, 0xdd], "()")]),
    ]);
    // The earlier selector's rule still answers.
    let payload = concat(&scenario_prefix(), &encoded_pair(0x11, 0x22));
    let decoded = m.get_constructor_args(&addr(0x00), &payload).unwrap();
    assert_eq!(
        decoded,
        DynSolValue::Tuple(vec![
            DynSolValue::Address(sol_addr(0x11)),
            DynSolValue::Address(sol_addr(0x22)),
        ])
    );
    // So does the later one.
    let decoded = m.get_constructor_args(&addr(0x00), &vec![0xaa, 0xbb, 0xcc, 0xdd]);
    assert_eq!(decoded, Some(DynSolValue::Tuple(vec![])));
}

#[test]
fn repeated_pair_last_write_wins_across_entries() {
    // The same (address, selector) pair in two entries: the most recently
    // inserted rule replaces the earlier one.
    let m = Matcher::new(vec![
        (addr(0x00), vec![args(SEL, scenario_prefix(), "(uint256)")]),
        (addr(0x00), vec![args(SEL, scenario_prefix(), "(address,address)")]),
    ]);
    let payload = concat(&scenario_prefix(), &encoded_pair(0x11, 0x22));
    let decoded = m.get_constructor_args(&addr(0x00), &payload).unwrap();
    assert_eq!(
        decoded,
        DynSolValue::Tuple(vec![
            DynSolValue::Address(sol_addr(0x11)),
            DynSolValue::Address(sol_addr(0x22)),
        ])
    );
}

#[test]
fn trailing_bytes_after_static_tuple_are_ignored() {
    // The codec does not reject bytes beyond what a static tuple consumes:
    // the decode still succeeds and yields the tuple's own words.
    let m = scenario_matcher("(address,address)");
    let mut payload = concat(&scenario_prefix(), &encoded_pair(0x11, 0x22));
    payload.extend_from_slice(&[0xff; 32]);
    let decoded = m.get_constructor_args(&addr(0x00), &payload).unwrap();
    assert_eq!(
        decoded,
        DynSolValue::Tuple(vec![
            DynSolValue::Address(sol_addr(0x11)),
            DynSolValue::Address(sol_addr(0x22)),
        ])
    );
}

#[test]
fn empty_schema_accepts_any_tail() {
    // A zero-parameter schema consumes nothing, so any tail after the prefix
    // still decodes to zero arguments.
    let m = scenario_matcher("()");
    let payload = concat(&scenario_prefix(), &[0xde, 0xad, 0xbe, 0xef]);
    assert_eq!(
        m.get_constructor_args(&addr(0x00), &payload),
        Some(DynSolValue::Tuple(vec![]))
    );
}

#[test]
fn try_new_rejects_invalid_schema() {
    // One bad schema fails the whole construction.
    let entries = vec![
        (addr(0x00), vec![args(SEL, scenario_prefix(), "(address,address)")]),
        (addr(0x01), vec![args(SEL, scenario_prefix(), "(address")]),
    ];
    assert!(Matcher::try_new(entries).is_none());
}

#[test]
fn try_new_accepts_valid_schemas() {
    let entries = vec![(addr(0x00), vec![args(SEL, scenario_prefix(), "(address,address)")])];
    let m = Matcher::try_new(entries).unwrap();
    let payload = concat(&scenario_prefix(), &encoded_pair(0x11, 0x22));
    assert!(m.get_constructor_args(&addr(0x00), &payload).is_some());
}

#[test]
fn verification_request_metadata() {
    let m = scenario_matcher("(address,address)");
    let payload = concat(&scenario_prefix(), &encoded_pair(0x11, 0x22));
    let request = m.get_verification_args(&addr(0x00), &payload).unwrap();
    assert_eq!(request.address.bytes, vec![0x00; 20]);
    assert_eq!(request.source, "contract C {}");
    assert_eq!(request.code_format, CodeFormat::SingleFile);
    assert_eq!(request.contract_name, "C");
    assert_eq!(request.compiler_version, "v0.8.24");
    assert_eq!(request.optimization_used, Some(String::from("1")));
    assert_eq!(request.runs, Some(String::from("200")));
    assert_eq!(request.evm_version, None);
    assert_eq!(request.via_ir, Some(false));
}

#[test]
fn verification_request_only_on_match() {
    let m = scenario_matcher("(address,address)");
    let payload = concat(&scenario_prefix(), &[0x00; 7]);
    assert!(m.get_verification_args(&addr(0x00), &payload).is_none());
}
