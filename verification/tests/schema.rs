use lnpbp::schema::{
    decode_map, AbiTable, Error, GenesisSchema, Occurences, SchemaMap, TransitionSchema,
};

fn sample_map() -> SchemaMap {
    let mut m = SchemaMap::new();
    m.insert(2, Occurences::NoneOrOnce);
    m.insert(5, Occurences::OnceOrUpTo(Some(16)));
    m.insert(1, Occurences::Once);
    m
}

fn sample_abi() -> AbiTable {
    let mut a = AbiTable::new();
    a.insert(0, 0xbeef);
    a.insert(7, 1);
    a
}

#[test]
fn insert_keeps_keys_sorted() {
    let mut m = SchemaMap::new();
    m.insert(3, Occurences::Once);
    m.insert(1, Occurences::NoneOrOnce);
    m.insert(2, Occurences::NoneOrUpTo(None));
    let keys: Vec<u16> = m.entries().iter().map(|e| e.0).collect();
    assert_eq!(keys, vec![1, 2, 3]);
}

#[test]
fn insert_replaces_existing_key() {
    let mut m = SchemaMap::new();
    m.insert(4, Occurences::Once);
    m.insert(4, Occurences::NoneOrOnce);
    assert_eq!(m.len(), 1);
    assert_eq!(m.entries()[0], (4, Occurences::NoneOrOnce));
}

#[test]
fn map_encoding_lists_keys_ascending() {
    let mut schema = GenesisSchema {
        metadata: SchemaMap::new(),
        defines: SchemaMap::new(),
        abi: AbiTable::new(),
    };
    schema.metadata.insert(3, Occurences::Once);
    schema.metadata.insert(1, Occurences::Once);
    schema.metadata.insert(2, Occurences::Once);
    let mut bytes = Vec::new();
    schema.strict_encode(&mut bytes);
    // count 3, then entries (key u16 little-endian, tag byte) for keys 1, 2, 3
    assert_eq!(
        &bytes[..11],
        &[3, 0, 1, 0, 0, 2, 0, 0, 3, 0, 0]
    );
}

#[test]
fn genesis_round_trip() {
    let schema = GenesisSchema {
        metadata: sample_map(),
        defines: {
            let mut m = SchemaMap::new();
            m.insert(0, Occurences::NoneOrUpTo(Some(3)));
            m
        },
        abi: sample_abi(),
    };
    let mut bytes = Vec::new();
    let written = schema.strict_encode(&mut bytes);
    assert_eq!(written, bytes.len());
    let (decoded, consumed) = GenesisSchema::strict_decode(&bytes).expect("decode");
    assert_eq!(consumed, bytes.len());
    assert_eq!(decoded.metadata.entries(), schema.metadata.entries());
    assert_eq!(decoded.defines.entries(), schema.defines.entries());
    assert_eq!(decoded.abi.entries(), schema.abi.entries());
}

#[test]
fn genesis_round_trip_empty() {
    let schema = GenesisSchema {
        metadata: SchemaMap::new(),
        defines: SchemaMap::new(),
        abi: AbiTable::new(),
    };
    let mut bytes = Vec::new();
    schema.strict_encode(&mut bytes);
    assert_eq!(bytes, vec![0, 0, 0, 0, 0, 0, 0, 0]);
    let (decoded, consumed) = GenesisSchema::strict_decode(&bytes).expect("decode");
    assert_eq!(consumed, 8);
    assert_eq!(decoded.metadata.len(), 0);
    assert_eq!(decoded.defines.len(), 0);
    assert_eq!(decoded.abi.len(), 0);
}

#[test]
fn transition_round_trip() {
    let schema = TransitionSchema {
        metadata: sample_map(),
        closes: SchemaMap::new(),
        defines: {
            let mut m = SchemaMap::new();
            m.insert(9, Occurences::OnceOrUpTo(None));
            m
        },
        abi: sample_abi(),
    };
    let mut bytes = Vec::new();
    let written = schema.strict_encode(&mut bytes);
    assert_eq!(written, bytes.len());
    let (decoded, consumed) = TransitionSchema::strict_decode(&bytes).expect("decode");
    assert_eq!(consumed, bytes.len());
    assert_eq!(decoded.metadata.entries(), schema.metadata.entries());
    assert_eq!(decoded.closes.entries(), schema.closes.entries());
    assert_eq!(decoded.defines.entries(), schema.defines.entries());
    assert_eq!(decoded.abi.entries(), schema.abi.entries());
}

#[test]
fn occurrence_variants_round_trip() {
    let mut m = SchemaMap::new();
    m.insert(1, Occurences::Once);
    m.insert(2, Occurences::NoneOrOnce);
    m.insert(3, Occurences::OnceOrUpTo(None));
    m.insert(4, Occurences::OnceOrUpTo(Some(5)));
    m.insert(5, Occurences::NoneOrUpTo(None));
    m.insert(6, Occurences::NoneOrUpTo(Some(65535)));
    let schema = GenesisSchema {
        metadata: m,
        defines: SchemaMap::new(),
        abi: AbiTable::new(),
    };
    let mut bytes = Vec::new();
    schema.strict_encode(&mut bytes);
    let (decoded, _) = GenesisSchema::strict_decode(&bytes).expect("decode");
    assert_eq!(decoded.metadata.entries(), schema.metadata.entries());
}

#[test]
fn nonempty_placeholder_is_rejected_as_unsupported() {
    let schema = GenesisSchema {
        metadata: sample_map(),
        defines: SchemaMap::new(),
        abi: sample_abi(),
    };
    let mut bytes = Vec::new();
    schema.strict_encode(&mut bytes);
    // replace the empty trailing byte sequence with a one-byte payload
    bytes.truncate(bytes.len() - 2);
    bytes.extend_from_slice(&[1, 0, 0xaa]);
    match GenesisSchema::strict_decode(&bytes) {
        Err(Error::UnsupportedDataStructure(note)) => {
            assert_eq!(note, "Scripting information is not yet supported");
        }
        other => panic!("future payload must be rejected, got {:?}", other),
    }
}

#[test]
fn nonempty_placeholder_is_rejected_for_transitions() {
    let schema = TransitionSchema {
        metadata: SchemaMap::new(),
        closes: sample_map(),
        defines: SchemaMap::new(),
        abi: AbiTable::new(),
    };
    let mut bytes = Vec::new();
    schema.strict_encode(&mut bytes);
    bytes.truncate(bytes.len() - 2);
    bytes.extend_from_slice(&[2, 0, 1, 2]);
    match TransitionSchema::strict_decode(&bytes) {
        Err(Error::UnsupportedDataStructure(_)) => {}
        other => panic!("future payload must be rejected, got {:?}", other),
    }
}

#[test]
fn truncated_input_is_invalid() {
    let schema = GenesisSchema {
        metadata: sample_map(),
        defines: SchemaMap::new(),
        abi: AbiTable::new(),
    };
    let mut bytes = Vec::new();
    schema.strict_encode(&mut bytes);
    bytes.truncate(bytes.len() - 3);
    assert_eq!(GenesisSchema::strict_decode(&bytes), Err(Error::InvalidData));
    assert_eq!(GenesisSchema::strict_decode(&Vec::new()), Err(Error::InvalidData));
}

#[test]
fn descending_keys_are_invalid() {
    // count 2, then key 2 with tag Once, then key 1 with tag Once
    let bytes = vec![2, 0, 2, 0, 0, 1, 0, 0];
    assert_eq!(decode_map(&bytes, 0), Err(Error::InvalidData));
}

#[test]
fn duplicate_keys_are_invalid() {
    let bytes = vec![2, 0, 1, 0, 0, 1, 0, 0];
    assert_eq!(decode_map(&bytes, 0), Err(Error::InvalidData));
}

#[test]
fn unknown_occurrence_tag_is_invalid() {
    let bytes = vec![1, 0, 1, 0, 9];
    assert_eq!(decode_map(&bytes, 0), Err(Error::InvalidData));
}

#[test]
fn trailing_data_after_encoding_is_left_unread() {
    let schema = GenesisSchema {
        metadata: sample_map(),
        defines: SchemaMap::new(),
        abi: sample_abi(),
    };
    let mut bytes = Vec::new();
    let written = schema.strict_encode(&mut bytes);
    bytes.extend_from_slice(&[0xde, 0xad, 0xbe, 0xef]);
    let (decoded, consumed) = GenesisSchema::strict_decode(&bytes).expect("decode");
    assert_eq!(consumed, written);
    assert_eq!(decoded.metadata.entries(), schema.metadata.entries());
}
