use descriptor_info::analysis::{
    all_encode, describe_keyed_descriptor, describe_named_descriptor, parse_descriptor,
    script_leaves, script_paths,
};
use descriptor_info::failure::{AnalysisError, ErrorKind};
use descriptor_info::hex_bytes::HexBytes;
use descriptor_info::info::{DescriptorInfo, ExtConstant, MiniscriptKeyType, ScriptLeaf};
use descriptor_info::text::format_str;

const K1: &str = "02c79ef3ede6d14f72a00d0e49b4becfb152197b64c0707425c4f231df29500ee7";
const K2: &str = "03d008a849fbf474bd17e9d2c1a827077a468150e58221582ec3410ab309f5afe4";

#[test]
fn witness_script_hash_of_one_key() {
    let report = parse_descriptor(&format!("elwsh(pk({}))", K1));
    assert_eq!(report.first_error, None);
    let info = report.info.unwrap();
    assert_eq!(info.descriptor, format!("elwsh(pk({}))#grnxpm86", K1));
    assert_eq!(info.key_type, MiniscriptKeyType::PublicKey);
    let script = info.script_pubkey.unwrap();
    assert_eq!(script.bytes().len(), 34);
    assert_eq!(
        script.hex(),
        "0020ee477ffad2e72b80799aef667d3ab832cae959b161200b7eff37ad504458809c"
    );
    assert_eq!(info.max_satisfaction_weight, Some(109));
    assert_eq!(info.policy, Some(format!("pk({})", K1)));
    assert_eq!(info.script_paths, None);
}

#[test]
fn witness_key_hash_is_a_program_of_22_bytes() {
    let info = parse_descriptor(&format!("elwpkh({})", K1)).info.unwrap();
    let script = info.script_pubkey.unwrap();
    assert_eq!(script.bytes().len(), 22);
    assert_eq!(script.hex(), "0014be0c495e54923ae1ec3db9ab6c6ab04771130923");
    assert_eq!(info.max_satisfaction_weight, Some(107));
}

#[test]
fn key_hash_script_follows_the_template() {
    let info = parse_descriptor(&format!("elpkh({})", K1)).info.unwrap();
    assert_eq!(
        info.script_pubkey.unwrap().hex(),
        "76a914be0c495e54923ae1ec3db9ab6c6ab0477113092388ac"
    );
    assert_eq!(info.max_satisfaction_weight, Some(428));
}

#[test]
fn taproot_with_two_leaves() {
    let text = format!("eltr({},{{pk({}),pk({})}})", K1, K2, K1);
    let info = parse_descriptor(&text).info.unwrap();
    assert_eq!(
        info.script_paths,
        Some(vec![
            format!("OP_PUSHBYTES_32 {} OP_CHECKSIG", &K2[2..]),
            format!("OP_PUSHBYTES_32 {} OP_CHECKSIG", &K1[2..]),
        ])
    );
    assert_eq!(
        info.script_pubkey.unwrap().hex(),
        "51209c5748b3ab04e45c3537e59941ebf6d882823c067f7c8438507278752cce022e"
    );
    assert_eq!(info.max_satisfaction_weight, Some(167));
    assert_eq!(info.policy, Some(format!("or(pk({}),or(pk({}),pk({})))", K1, K2, K1)));
    assert_eq!(parse_descriptor(&text), parse_descriptor(&text));
}

#[test]
fn taproot_with_a_key_only() {
    let info = parse_descriptor(&format!("eltr({})", K1)).info.unwrap();
    assert_eq!(info.script_paths, Some(vec![]));
    assert_eq!(info.max_satisfaction_weight, Some(66));
    assert_eq!(
        info.script_pubkey.unwrap().hex(),
        "5120f74184ceeca012068f474f7bb75dfb03db25650d93a7705d534c4d1d926cf239"
    );
}

#[test]
fn descriptor_with_names_falls_back() {
    let report = parse_descriptor("elwsh(pk(A))");
    let first = report.first_error.unwrap();
    assert_eq!(first.kind, ErrorKind::Encoding);
    assert_eq!(
        first.message,
        "unexpected «pubkey string should be 66 or 130 digits long, got: 1»"
    );
    assert_eq!(
        report.info,
        Ok(DescriptorInfo {
            descriptor: "elwsh(pk(A))#lelzj27j".to_string(),
            key_type: MiniscriptKeyType::String,
            script_pubkey: None,
            max_satisfaction_weight: Some(109),
            policy: Some("pk(A)".to_string()),
            script_paths: None,
        })
    );
}

#[test]
fn taproot_with_names_has_no_script_paths() {
    let info = parse_descriptor("eltr(A,{pk(B),pk(C)})").info.unwrap();
    assert_eq!(info.key_type, MiniscriptKeyType::String);
    assert_eq!(info.script_pubkey, None);
    assert_eq!(info.script_paths, None);
    assert_eq!(info.policy, Some("or(pk(A),or(pk(B),pk(C)))".to_string()));
    assert_eq!(info.max_satisfaction_weight, Some(167));
}

#[test]
fn descriptor_against_the_type_rules() {
    let report = parse_descriptor("elwsh(pk_k(A))");
    assert_eq!(report.first_error.unwrap().kind, ErrorKind::Syntax);
    assert_eq!(report.info.unwrap_err().kind, ErrorKind::Type);
}

#[test]
fn descriptor_that_is_malformed() {
    let report = parse_descriptor("elwsh(pk(A)");
    assert_eq!(report.first_error.unwrap().kind, ErrorKind::Syntax);
    let error = report.info.unwrap_err();
    assert_eq!(error.kind, ErrorKind::Syntax);
    assert_eq!(error.message, "expected )");
}

#[test]
fn descriptor_without_the_prefix_is_refused() {
    let error = parse_descriptor("wsh(pk(A))").info.unwrap_err();
    assert_eq!(error.kind, ErrorKind::Syntax);
    assert_eq!(error.message, "Invalid descriptor: Not an Elements Descriptor");
}

#[test]
fn descriptor_with_a_timelock_branch() {
    let text = format!("elwsh(or_d(pk({}),and_v(v:pk({}),older(144))))", K1, K2);
    let info = parse_descriptor(&text).info.unwrap();
    assert_eq!(info.max_satisfaction_weight, Some(152));
    assert_eq!(info.policy, Some(format!("or(pk({}),and(pk({}),older(144)))", K1, K2)));
    assert_eq!(
        info.script_pubkey.unwrap().hex(),
        "0020d43afac1ff331b066e281943e66c16d5e35b65eddd91e3b73616d6b777ef510e"
    );
}

#[test]
fn descriptor_is_read_after_cleaning() {
    let dirty = format!(" elwsh(\n\tpk( {} )\r\n) ", K1);
    let info = parse_descriptor(&format_str(dirty)).info.unwrap();
    assert_eq!(info.descriptor, format!("elwsh(pk({}))#grnxpm86", K1));
}

#[test]
fn script_leaves_writes_each_leaf() {
    let leaves = vec![(2, vec![0x51u8]), (2, vec![0x00, 0x63, 0x68]), (1, Vec::new())];
    let written = script_leaves(&leaves);
    assert_eq!(
        written,
        vec![
            ScriptLeaf { depth: 2, script: "OP_PUSHNUM_1".to_string() },
            ScriptLeaf { depth: 2, script: "OP_0 OP_IF OP_ENDIF".to_string() },
            ScriptLeaf { depth: 1, script: String::new() },
        ]
    );
    assert_eq!(
        script_paths(&written),
        vec!["OP_PUSHNUM_1".to_string(), "OP_0 OP_IF OP_ENDIF".to_string(), String::new()]
    );
    assert_eq!(script_leaves(&Vec::new()), Vec::<ScriptLeaf>::new());
    assert_eq!(script_paths(&Vec::new()), Vec::<String>::new());
}

#[test]
fn describe_keyed_descriptor_puts_the_parts_together() {
    let info = describe_keyed_descriptor(
        "d".to_string(),
        Some(vec![0x51]),
        Some(7),
        Some("pk(A)".to_string()),
        &Some(vec![ScriptLeaf { depth: 0, script: "OP_PUSHNUM_1".to_string() }]),
    );
    assert_eq!(
        info,
        DescriptorInfo {
            descriptor: "d".to_string(),
            key_type: MiniscriptKeyType::PublicKey,
            script_pubkey: Some(HexBytes(vec![0x51])),
            max_satisfaction_weight: Some(7),
            policy: Some("pk(A)".to_string()),
            script_paths: Some(vec!["OP_PUSHNUM_1".to_string()]),
        }
    );
}

#[test]
fn describe_named_descriptor_has_no_script() {
    let info = describe_named_descriptor("d".to_string(), None, None);
    assert_eq!(
        info,
        DescriptorInfo {
            descriptor: "d".to_string(),
            key_type: MiniscriptKeyType::String,
            script_pubkey: None,
            max_satisfaction_weight: None,
            policy: None,
            script_paths: None,
        }
    );
}

#[test]
fn malformed_descriptors_are_refused() {
    let texts = [
        "", "el", "el(", "elwsh", "elwsh(", "elwsh()", "elwsh(pk())#", "eltr", "eltr(", "eltr()",
        "eltr(A,)", "eltr(A,{)", "eltr(A,{pk(B)})", "eltr(A,{pk(B),})", "elsh(wsh())",
        "elwpkh()", "elpkh(A,B)", "elwsh(pk(A))#00000000", "elwsh(multi(0,A))", "elwsh(thresh(1))",
        "elcovwsh(A,pk(B))", "elwsh(after(0))", "elwsh(older(0))", "el#",
    ];
    for text in texts {
        let report = parse_descriptor(text);
        if report.info.is_ok() {
            continue;
        }
        assert!(report.first_error.is_some(), "{}", text);
    }
}

#[test]
fn descriptors_against_the_rules_of_their_fragments() {
    for text in ["elwsh(and_v(pk(A),pk(B)))", "elwsh(or_b(pk(A),pk(B)))"] {
        let error = parse_descriptor(text).info.unwrap_err();
        assert_eq!(error.kind, ErrorKind::Type, "{}: {}", text, error.message);
    }
}

#[test]
fn uncompressed_key_is_no_key_of_a_witness_program() {
    let uncompressed = "04a34b99f22c790c4e36b2b3c2c35a36db06226e41c692fc82b8b56ac1c540c5bd\
                        5b8dec5235a0fa8722476c7709c02559e3aa73aa03918ba2d492eea75abea235";
    for text in [format!("elwpkh({})", uncompressed), format!("elwsh(pk({}))", uncompressed)] {
        let report = parse_descriptor(&text);
        let first = report.first_error.unwrap();
        assert_eq!(first.kind, ErrorKind::Type, "{}: {}", text, first.message);
        assert_eq!(report.info.unwrap().key_type, MiniscriptKeyType::String);
    }
}

#[test]
fn taproot_leaves_come_with_their_depths() {
    let text = format!("eltr({},{{pk({}),{{pk({}),pk({})}}}})", K1, K2, K1, K2);
    let report = parse_descriptor(&text);
    let leaves = report.leaves.unwrap();
    let depths: Vec<usize> = leaves.iter().map(|leaf| leaf.depth).collect();
    assert_eq!(depths, vec![1, 2, 2]);
    let paths: Vec<String> = leaves.into_iter().map(|leaf| leaf.script).collect();
    assert_eq!(report.info.unwrap().script_paths, Some(paths));
    assert_eq!(parse_descriptor(&format!("eltr({})", K1)).leaves, Some(vec![]));
    assert_eq!(parse_descriptor(&format!("elwsh(pk({}))", K1)).leaves, None);
    assert_eq!(parse_descriptor("eltr(A,{pk(B),pk(C)})").leaves, None);
}

#[test]
fn descriptor_with_extension_fragments_has_its_script() {
    let texts = [
        format!("eltr({},and_v(v:pk({}),curr_idx_eq(0)))", K1, K2),
        format!("eltr({},{{pk({}),and_v(v:pk({}),is_exp_asset(curr_inp_asset))}})", K1, K2, K1),
        format!(
            "eltr({},and_v(v:pk({}),spk_eq(curr_inp_spk,0014{})))",
            K1,
            K2,
            "be0c495e54923ae1ec3db9ab6c6ab04771130923"
        ),
        format!("eltr({},and_v(v:pk({}),spk_eq(curr_inp_spk,6a)))", K1, K2),
        format!("eltr({},and_v(v:pk({}),spk_eq(curr_inp_spk,51020000)))", K1, K2),
    ];
    for text in texts {
        let report = parse_descriptor(&text);
        assert_eq!(report.first_error, None, "{}", text);
        let info = report.info.unwrap();
        assert_eq!(info.key_type, MiniscriptKeyType::PublicKey);
        let script = info.script_pubkey.unwrap();
        assert_eq!(script.bytes().len(), 34, "{}", text);
        let paths = info.script_paths.unwrap();
        assert_eq!(paths.len(), report.leaves.unwrap().len());
        assert!(!paths.is_empty());
    }
}

#[test]
fn descriptor_with_a_constant_that_cannot_be_encoded_is_refused() {
    let texts = [
        format!("eltr({},and_v(v:pk({}),is_exp_asset(00)))", K1, K2),
        format!("eltr({},and_v(v:pk({}),asset_eq(curr_inp_asset,00)))", K1, K2),
        format!("eltr({},and_v(v:pk({}),spk_eq(curr_inp_spk,00020000)))", K1, K2),
        format!("eltr({},and_v(v:pk({}),spk_eq(00020000,out_spk(0))))", K1, K2),
        format!("eltr({},{{pk({}),and_v(v:pk({}),is_exp_asset(00))}})", K1, K2, K1),
    ];
    for text in texts {
        let report = parse_descriptor(&text);
        assert_eq!(report.first_error, None, "{}", text);
        assert_eq!(report.leaves, None);
        assert_eq!(
            report.info,
            Err(AnalysisError {
                kind: ErrorKind::Encoding,
                message: "a constant of the descriptor cannot be encoded".to_string(),
            }),
            "{}",
            text
        );
    }
}

#[test]
fn all_encode_tells_the_constants_apart() {
    assert!(all_encode(&vec![]));
    let harmless = vec![ExtConstant::Asset, ExtConstant::Computed, ExtConstant::HashedScript];
    assert!(all_encode(&harmless));
    assert!(!all_encode(&vec![ExtConstant::Asset, ExtConstant::NullAsset]));
    assert!(!all_encode(&vec![ExtConstant::Misplaced]));
    assert!(all_encode(&vec![ExtConstant::Script(vec![0x6a])]));
    assert!(all_encode(&vec![ExtConstant::Script(vec![])]));
    let mut program = vec![0x00, 0x14];
    program.extend([7u8; 20]);
    assert!(all_encode(&vec![ExtConstant::Script(program)]));
    assert!(all_encode(&vec![ExtConstant::Script(vec![0x51, 0x02, 0x00, 0x00])]));
    assert!(!all_encode(&vec![ExtConstant::Script(vec![0x00, 0x02, 0x00, 0x00])]));
    assert!(!all_encode(&vec![ExtConstant::Computed, ExtConstant::Script(vec![0, 3, 1, 2, 3])]));
}

#[test]
fn covenant_descriptor_does_not_unwind() {
    let report = parse_descriptor(&format!("elcovwsh({},pk({}))", K1, K2));
    if let Ok(info) = report.info {
        assert_eq!(info.script_pubkey.is_some(), info.key_type == MiniscriptKeyType::PublicKey);
    }
}
