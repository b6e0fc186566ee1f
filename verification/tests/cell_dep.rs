use ckb_default_impls::cell_dep::{
    CodeHashMismatch, CodeHashes, DefaultCellDepResolver, GenesisBlock, GenesisTransaction,
    ParseGenesisInfoError, SystemScript,
};
use ckb_default_impls::types::{
    CellDep, CellOutput, DepType, OutPoint, Script, ScriptHashType, ScriptId, DAO_TYPE_HASH,
    MULTISIG_TYPE_HASH, SIGHASH_TYPE_HASH,
};
use ckb_types::prelude::{Builder, Entity, Pack, Unpack};

const SIGHASH_TYPE_ARGS: &str = "8536c9d5d908bd89fc70099e4284870708b6632356aad98734fcf43f6f71c304";
const MULTISIG_TYPE_ARGS: &str = "d813c1b15bd79c8321ad7f5819e5d9f659a1042b72e64659a2c092be68ea9758";
const DAO_TYPE_ARGS: &str = "b2a8500929d6a1294bf9bf1bf565f549fa4a5f1316a3306ad3d4783e64bcf626";

fn from_hex(text: &str) -> Vec<u8> {
    (0..text.len() / 2)
        .map(|i| u8::from_str_radix(&text[2 * i..2 * i + 2], 16).unwrap())
        .collect()
}

fn type_id_script(args: Vec<u8>) -> Script {
    let mut code_hash = [0; 32];
    code_hash[25..].copy_from_slice(b"TYPE_ID");
    Script {
        code_hash,
        hash_type: 1,
        args,
    }
}

fn output(type_: Option<Script>) -> CellOutput {
    CellOutput {
        capacity: 500,
        lock: Script {
            code_hash: [7; 32],
            hash_type: 0,
            args: vec![],
        },
        type_,
    }
}

fn transaction(hash: u8, type_scripts: Vec<Option<Script>>) -> GenesisTransaction {
    GenesisTransaction {
        hash: [hash; 32],
        outputs_data: type_scripts.iter().map(|_| vec![]).collect(),
        outputs: type_scripts.into_iter().map(output).collect(),
    }
}

/// A block like that of the public chains.
fn genesis() -> GenesisBlock {
    GenesisBlock {
        number: 0,
        transactions: vec![
            transaction(
                0xa0,
                vec![
                    None,
                    Some(type_id_script(from_hex(SIGHASH_TYPE_ARGS))),
                    Some(type_id_script(from_hex(DAO_TYPE_ARGS))),
                    None,
                    Some(type_id_script(from_hex(MULTISIG_TYPE_ARGS))),
                ],
            ),
            transaction(0xa1, vec![None, None]),
        ],
    }
}

fn dep(hash: u8, index: u32, dep_type: DepType) -> CellDep {
    CellDep {
        out_point: OutPoint {
            tx_hash: [hash; 32],
            index,
        },
        dep_type,
    }
}

fn type_hash_not_found(block: &GenesisBlock) -> String {
    match DefaultCellDepResolver::from_genesis(block) {
        Err(ParseGenesisInfoError::TypeHashNotFound(what)) => what,
        other => panic!("{:?}", other),
    }
}

#[test]
fn genesis_of_the_public_chains() {
    let resolver = DefaultCellDepResolver::from_genesis(&genesis()).unwrap();
    assert_eq!(
        resolver.sighash_dep(),
        Some(&(
            dep(0xa1, 0, DepType::DepGroup),
            "Secp256k1 blake160 sighash all".to_string()
        ))
    );
    assert_eq!(
        resolver.multisig_dep(),
        Some(&(
            dep(0xa1, 1, DepType::DepGroup),
            "Secp256k1 blake160 multisig all".to_string()
        ))
    );
    assert_eq!(
        resolver.dao_dep(),
        Some(&(dep(0xa0, 2, DepType::Code), "Nervos DAO".to_string()))
    );
    assert!(!resolver.contains(&ScriptId::new_type([1; 32])));
}

#[test]
fn type_hashes_of_the_public_chains() {
    let block = genesis();
    assert_eq!(block.type_hash_at((0, 1)), Some(SIGHASH_TYPE_HASH));
    assert_eq!(block.type_hash_at((0, 4)), Some(MULTISIG_TYPE_HASH));
    assert_eq!(block.type_hash_at((0, 2)), Some(DAO_TYPE_HASH));
    assert_eq!(block.type_hash_at((0, 0)), None);
    assert_eq!(block.type_hash_at((0, 5)), None);
    assert_eq!(block.type_hash_at((2, 0)), None);
}

#[test]
fn type_hash_is_that_of_the_chain_types() {
    let script = Script {
        code_hash: [3; 32],
        hash_type: 2,
        args: vec![1, 2, 3],
    };
    let packed_script = ckb_types::packed::Script::new_builder()
        .code_hash([3u8; 32].pack())
        .hash_type(2.into())
        .args([1u8, 2, 3][..].pack())
        .build();
    let expected: ckb_types::H256 = packed_script.calc_script_hash().unpack();
    let block = GenesisBlock {
        number: 0,
        transactions: vec![transaction(0, vec![Some(script)])],
    };
    assert_eq!(block.type_hash_at((0, 0)), Some(expected.0));
    assert_eq!(
        expected.0,
        ckb_hash::blake2b_256(packed_script.as_slice())
    );
}

#[test]
fn type_hash_is_that_of_the_encoding() {
    for (hash_type, args) in [(0, vec![]), (1, vec![9; 20]), (2, vec![4; 300])] {
        let mut encoding = Vec::new();
        for number in [53 + args.len() as u32, 16, 48, 49] {
            encoding.extend_from_slice(&number.to_le_bytes());
        }
        encoding.extend_from_slice(&[6; 32]);
        encoding.push(hash_type);
        encoding.extend_from_slice(&(args.len() as u32).to_le_bytes());
        encoding.extend_from_slice(&args);
        let script = Script {
            code_hash: [6; 32],
            hash_type,
            args,
        };
        let block = GenesisBlock {
            number: 0,
            transactions: vec![transaction(0, vec![Some(script)])],
        };
        assert_eq!(
            block.type_hash_at((0, 0)),
            Some(ckb_hash::blake2b_256(&encoding))
        );
    }
}

#[test]
fn code_hashes_of_cells() {
    let mut block = genesis();
    block.transactions[0].outputs_data[2] = vec![1, 2, 3];
    assert_eq!(block.code_hash_at((0, 1)), Some([0; 32]));
    let hash = ckb_hash::blake2b_256(&[1u8, 2, 3][..]);
    assert_eq!(block.code_hash_at((0, 2)), Some(hash));
    let expected: ckb_types::H256 =
        ckb_types::packed::CellOutput::calc_data_hash(&[1, 2, 3]).unpack();
    assert_eq!(hash, expected.0);
    assert_eq!(block.code_hash_at((0, 5)), None);
    assert_eq!(block.code_hash_at((2, 0)), None);
}

#[test]
fn mismatches_of_code_hashes() {
    let mut block = genesis();
    for (index, byte) in [(1, 11), (2, 12), (4, 14)] {
        block.transactions[0].outputs_data[index] = vec![byte];
    }
    let hash = |byte: u8| ckb_hash::blake2b_256(&[byte][..]);
    let mut known = CodeHashes {
        sighash: hash(11),
        multisig: hash(14),
        dao: hash(12),
    };
    assert_eq!(block.code_hash_mismatches(&known), vec![]);

    known.dao = [7; 32];
    let dao = CodeHashMismatch {
        script: SystemScript::Dao,
        found: hash(12),
        expected: [7; 32],
    };
    assert_eq!(block.code_hash_mismatches(&known), vec![dao]);

    known.multisig = [8; 32];
    block.transactions[0].outputs_data[1].clear();
    let sighash = CodeHashMismatch {
        script: SystemScript::Sighash,
        found: [0; 32],
        expected: hash(11),
    };
    let multisig = CodeHashMismatch {
        script: SystemScript::Multisig,
        found: hash(14),
        expected: [8; 32],
    };
    assert_eq!(
        block.code_hash_mismatches(&known),
        vec![sighash, dao, multisig]
    );

    block.transactions[0].outputs_data.truncate(2);
    assert_eq!(block.code_hash_mismatches(&known), vec![sighash]);
    block.number = 1;
    assert_eq!(block.code_hash_mismatches(&known), vec![]);
}

#[test]
fn mismatch_of_one_code_hash() {
    let between = |found| CodeHashMismatch::between(SystemScript::Dao, found, [1; 32]);
    assert_eq!(between(None), None);
    assert_eq!(between(Some([1; 32])), None);
    assert_eq!(
        between(Some([2; 32])),
        Some(CodeHashMismatch {
            script: SystemScript::Dao,
            found: [2; 32],
            expected: [1; 32],
        })
    );
}

#[test]
fn known_code_hashes() {
    // Every system script of the test block has empty code, so that none has the known hash.
    let known = CodeHashes {
        sighash: ckb_resource::CODE_HASH_SECP256K1_BLAKE160_SIGHASH_ALL.0,
        multisig: ckb_resource::CODE_HASH_SECP256K1_BLAKE160_MULTISIG_ALL.0,
        dao: ckb_resource::CODE_HASH_DAO.0,
    };
    assert_eq!(genesis().code_hash_mismatches(&known).len(), 3);
    assert!(DefaultCellDepResolver::from_genesis(&genesis()).is_ok());
}

#[test]
fn genesis_with_other_type_scripts() {
    let mut block = genesis();
    block.transactions[0].outputs[1].type_ = Some(type_id_script(vec![1]));
    let own_hash = block.type_hash_at((0, 1)).unwrap();
    let resolver = DefaultCellDepResolver::from_genesis(&block).unwrap();
    assert_eq!(resolver.sighash_dep(), None);
    assert_eq!(
        resolver.get(&ScriptId::new_type(own_hash)).unwrap().0,
        dep(0xa1, 0, DepType::DepGroup)
    );
}

#[test]
fn genesis_with_equal_type_scripts() {
    let mut block = genesis();
    for i in [1, 2, 4] {
        block.transactions[0].outputs[i].type_ = Some(type_id_script(vec![]));
    }
    let hash = block.type_hash_at((0, 1)).unwrap();
    let resolver = DefaultCellDepResolver::from_genesis(&block).unwrap();
    assert_eq!(
        resolver.get(&ScriptId::new_type(hash)).unwrap().1,
        "Nervos DAO"
    );
}

#[test]
fn later_block_is_not_a_genesis() {
    let mut block = genesis();
    block.number = 12;
    let error = DefaultCellDepResolver::from_genesis(&block).unwrap_err();
    assert_eq!(error, ParseGenesisInfoError::InvalidBlockNumber(12));
    assert_eq!(
        error.message(),
        "invalid block number, expected: 0, got: `12`"
    );
    let without_cells = GenesisBlock {
        number: u64::MAX,
        transactions: vec![],
    };
    assert_eq!(
        DefaultCellDepResolver::from_genesis(&without_cells)
            .unwrap_err()
            .message(),
        "invalid block number, expected: 0, got: `18446744073709551615`"
    );
}

#[test]
fn missing_type_scripts() {
    let mut block = genesis();
    block.transactions[0].outputs[2].type_ = None;
    assert_eq!(
        type_hash_not_found(&block),
        "No type hash(dao) found in txs[0][2]"
    );
    block.transactions[0].outputs[4].type_ = None;
    assert_eq!(
        type_hash_not_found(&block),
        "No type hash(multisig) found in txs[0][4]"
    );
    block.transactions[0].outputs[1].type_ = None;
    assert_eq!(
        type_hash_not_found(&block),
        "No type hash(sighash) found in txs[0][1]"
    );
    block.transactions.clear();
    assert_eq!(
        type_hash_not_found(&block),
        "No type hash(sighash) found in txs[0][1]"
    );
}

#[test]
fn output_without_data_is_no_cell() {
    let mut block = genesis();
    block.transactions[0].outputs_data.pop();
    assert!(!block.has_cell((0, 4)));
    assert!(block.has_cell((0, 3)));
    assert_eq!(
        type_hash_not_found(&block),
        "No type hash(multisig) found in txs[0][4]"
    );
}

#[test]
fn messages_of_missing_things() {
    assert_eq!(
        ParseGenesisInfoError::DataHashNotFound("x".to_string()).message(),
        "data not found: `x`"
    );
    assert_eq!(
        ParseGenesisInfoError::TypeHashNotFound("y".to_string()).message(),
        "type not found: `y`"
    );
}

#[test]
fn registered_and_forgotten() {
    let mut resolver = DefaultCellDepResolver::from_genesis(&genesis()).unwrap();
    let id = ScriptId {
        code_hash: [9; 32],
        hash_type: ScriptHashType::Data1,
    };
    let first = dep(1, 2, DepType::Code);
    let second = dep(3, 4, DepType::DepGroup);
    assert_eq!(resolver.remove(&id), None);
    assert_eq!(resolver.insert(id, first, "first".to_string()), None);
    assert!(resolver.contains(&id));
    assert_eq!(resolver.get(&id), Some(&(first, "first".to_string())));
    assert_eq!(
        resolver.insert(id, second, "second".to_string()),
        Some((first, "first".to_string()))
    );
    assert_eq!(resolver.get(&id), Some(&(second, "second".to_string())));
    assert!(resolver.dao_dep().is_some());

    let copied = resolver.clone();
    assert_eq!(
        resolver.remove(&id),
        Some((second, "second".to_string()))
    );
    assert!(!resolver.contains(&id));
    assert_eq!(resolver.get(&id), None);
    assert!(resolver.dao_dep().is_some());
    assert!(copied.contains(&id));
}

#[test]
fn resolved_by_code_hash_and_hash_type() {
    let mut resolver = DefaultCellDepResolver::from_genesis(&genesis()).unwrap();
    let script = |hash_type: u8, args: Vec<u8>| Script {
        code_hash: SIGHASH_TYPE_HASH,
        hash_type,
        args,
    };
    let sighash = Some(dep(0xa1, 0, DepType::DepGroup));
    assert_eq!(resolver.resolve(&script(1, vec![])), sighash);
    assert_eq!(resolver.resolve(&script(1, vec![1, 2, 3])), sighash);
    assert_eq!(resolver.resolve(&script(0, vec![])), None);
    assert_eq!(resolver.resolve(&script(2, vec![])), None);
    let id = ScriptId {
        code_hash: SIGHASH_TYPE_HASH,
        hash_type: ScriptHashType::Data,
    };
    resolver.insert(id, dep(5, 6, DepType::Code), "data".to_string());
    assert_eq!(
        resolver.resolve(&script(0, vec![])),
        Some(dep(5, 6, DepType::Code))
    );
    assert_eq!(resolver.resolve(&script(1, vec![])), sighash);
}
