use arrow::array::{ArrayRef, Int32Array, StringArray};
use arrow::datatypes::{DataType, Field, Schema};
use arrow::record_batch::RecordBatch;
use flock_runtime::batch::Batch;
use flock_runtime::context::{CloudEnvironment, CloudFunction, DataSource, ExecutionContext};
use flock_runtime::encoding::Encoding;
use flock_runtime::error::FlockError;
use flock_runtime::plan::PhysicalPlan;
use std::sync::Arc;

fn schema(first: &str, second: &str) -> Arc<Schema> {
    Arc::new(Schema::new(vec![
        Field::new(first, DataType::Utf8, false),
        Field::new(second, DataType::Int32, false),
    ]))
}

fn batch(schema: Arc<Schema>) -> Batch {
    let names: ArrayRef = Arc::new(StringArray::from(vec!["a", "b", "c", "d"]));
    let numbers: ArrayRef = Arc::new(Int32Array::from(vec![1, 10, 10, 100]));
    Batch { inner: RecordBatch::try_new(schema, vec![names, numbers]).unwrap() }
}

fn node(operator: &str, schema: Arc<Schema>, children: Vec<PhysicalPlan>) -> PhysicalPlan {
    PhysicalPlan { operator: operator.to_owned(), schema, partitions: vec![], children }
}

fn context(plan: PhysicalPlan) -> ExecutionContext {
    ExecutionContext {
        plan,
        name: "test".to_string(),
        next: CloudFunction::Terminal,
        datasource: DataSource::UnknownEvent,
    }
}

fn inner(partitions: &Vec<Vec<Batch>>) -> Vec<Vec<RecordBatch>> {
    partitions.iter().map(|g| g.iter().map(|b| b.inner.clone()).collect()).collect()
}

const PLAN: &str = r#"{"execution_plan":"coalesce_batches_exec","input":{"execution_plan":"memory_exec","schema":{"fields":[{"name":"c1","data_type":"Int64","nullable":true,"dict_id":0,"dict_is_ordered":false},{"name":"c2","data_type":"Float64","nullable":true,"dict_id":0,"dict_is_ordered":false},{"name":"c3","data_type":"Utf8","nullable":true,"dict_id":0,"dict_is_ordered":false}],"metadata":{}},"projection":null},"target_batch_size":16384}"#;

#[test]
fn lambda_context_marshal() {
    let serialized = PLAN.as_bytes().to_vec();
    assert!(Encoding::Snappy.can_encode(&serialized));
    let json = ExecutionContext::marshal(&serialized, Encoding::Snappy);
    let de_json = ExecutionContext::unmarshal(&json).unwrap();
    assert_eq!(serialized, de_json);

    let s = schema("c1", "c2");
    let make = || ExecutionContext {
        plan: node("coalesce_batches_exec", s.clone(), vec![PhysicalPlan::leaf("memory_exec".to_owned(), s.clone())]),
        name: "hello".to_owned(),
        next: CloudFunction::Solo("SX72HzqFz1Qij4bP-00-2021-01-28T19:27:50.298504836Z".to_owned()),
        datasource: DataSource::Payload,
    };
    assert_eq!(make(), make());
}

#[test]
fn snappy_envelope_carries_the_compressed_block() {
    let serialized = vec![7u8; 4000];
    let text = ExecutionContext::marshal(&serialized, Encoding::Snappy);
    let env = CloudEnvironment::from_text(&text).unwrap();
    assert_eq!(env.encoding, Encoding::Snappy);
    let block = snap::raw::Encoder::new().compress_vec(&serialized).unwrap();
    assert_eq!(env.context, block);
    assert!(env.context.len() < serialized.len());
    assert_eq!(Encoding::Snappy.encoder(&serialized), block);
    assert_eq!(Encoding::Snappy.decoder(&block).unwrap(), serialized);
    assert_eq!(ExecutionContext::unmarshal(&text).unwrap(), serialized);
}

#[test]
fn plain_envelope_round_trip() {
    let serialized: Vec<u8> = (0..=255u8).collect();
    let text = ExecutionContext::marshal(&serialized, Encoding::Identity);
    assert_eq!(ExecutionContext::unmarshal(&text).unwrap(), serialized);
    let empty: Vec<u8> = vec![];
    let text = ExecutionContext::marshal(&empty, Encoding::Identity);
    assert_eq!(text, r#"{"context":[],"encoding":"None"}"#);
    assert_eq!(ExecutionContext::unmarshal(&text).unwrap(), empty);
}

#[test]
fn envelope_text_is_json() {
    let env = CloudEnvironment { context: vec![0, 9, 10, 99, 100, 255], encoding: Encoding::Snappy };
    let text = env.to_text();
    assert_eq!(text, r#"{"context":[0,9,10,99,100,255],"encoding":"Snappy"}"#);

    let mut object = serde_json::Map::new();
    object.insert(
        "context".to_owned(),
        serde_json::Value::Array(env.context.iter().map(|b| serde_json::Value::from(*b)).collect()),
    );
    object.insert("encoding".to_owned(), serde_json::Value::String("Snappy".to_owned()));
    assert_eq!(text, serde_json::to_string(&serde_json::Value::Object(object)).unwrap());

    let back = CloudEnvironment::from_text(&text).unwrap();
    assert_eq!(back.context, env.context);
    assert_eq!(back.encoding, Encoding::Snappy);
}

#[test]
fn every_tag_is_read_back() {
    for (encoding, tag) in [
        (Encoding::Snappy, "Snappy"),
        (Encoding::Lz4, "Lz4"),
        (Encoding::Zstd, "Zstd"),
        (Encoding::Identity, "None"),
    ] {
        let env = CloudEnvironment { context: vec![1, 2, 3], encoding };
        let text = env.to_text();
        assert_eq!(text, format!("{{\"context\":[1,2,3],\"encoding\":\"{}\"}}", tag));
        let back = CloudEnvironment::from_text(&text).unwrap();
        assert_eq!(back.encoding, encoding);
        assert_eq!(back.context, vec![1, 2, 3]);
    }
}

#[test]
fn malformed_envelopes_are_refused() {
    for text in [
        "",
        "hello",
        r#"{"context":[1,2,3],"encoding":"Snappy""#,
        r#"{"context":[1,2,3,],"encoding":"Snappy"}"#,
        r#"{"context":[256],"encoding":"None"}"#,
        r#"{"context":[01],"encoding":"None"}"#,
        r#"{"context":[1],"encoding":"Gzip"}"#,
        r#"{"context":[1],"encoding":"None"} "#,
        r#"{"context":[-1],"encoding":"None"}"#,
        r#"{"context":[1 ,2],"encoding":"None"}"#,
        r#"{"encoding":"None","context":[1]}"#,
    ] {
        assert_eq!(CloudEnvironment::from_text(text).unwrap_err(), FlockError::MalformedEnvelope);
        assert_eq!(ExecutionContext::unmarshal(text).unwrap_err(), FlockError::MalformedEnvelope);
    }
}

#[test]
fn unsupported_encodings_are_refused() {
    assert!(!Encoding::Lz4.is_supported());
    assert!(!Encoding::Zstd.is_supported());
    assert!(Encoding::Snappy.is_supported());
    assert!(Encoding::Identity.is_supported());
    assert!(!Encoding::Lz4.can_encode(&vec![1, 2, 3]));
    for text in [r#"{"context":[1],"encoding":"Lz4"}"#, r#"{"context":[1],"encoding":"Zstd"}"#] {
        assert_eq!(ExecutionContext::unmarshal(text).unwrap_err(), FlockError::UnsupportedEncoding);
    }
    assert_eq!(Encoding::Zstd.decoder(&vec![1]).unwrap_err(), FlockError::UnsupportedEncoding);
}

#[test]
fn broken_snappy_block_is_refused() {
    let text = r#"{"context":[200,1,2],"encoding":"Snappy"}"#;
    assert_eq!(ExecutionContext::unmarshal(text).unwrap_err(), FlockError::MalformedEnvelope);
    let empty = r#"{"context":[],"encoding":"Snappy"}"#;
    assert_eq!(ExecutionContext::unmarshal(empty).unwrap_err(), FlockError::MalformedEnvelope);
}

#[test]
fn feed_one_source_fills_the_only_leaf() {
    let s = schema("a", "b");
    let partitions = vec![vec![batch(s.clone())]];
    let plan = node(
        "hash_aggregate_exec",
        s.clone(),
        vec![node("coalesce_batches_exec", s.clone(), vec![PhysicalPlan::leaf("memory_exec".to_owned(), s.clone())])],
    );
    let mut ctx = context(plan);
    ctx.feed_one_source(&partitions);
    let leaf = &ctx.plan.children[0].children[0];
    assert!(leaf.is_leaf());
    assert_eq!(inner(&leaf.partitions), inner(&partitions));
    assert!(ctx.plan.partitions.is_empty());
    assert!(ctx.plan.children[0].partitions.is_empty());
    assert_eq!(ctx.name, "test");
}

#[test]
fn feed_one_source_takes_the_first_leaf_breadth_first() {
    let s = schema("a", "b");
    let partitions = vec![vec![batch(s.clone())]];
    // The leftmost leaf lies two levels down, a leaf to its right one level down.
    let deep = node("filter_exec", s.clone(), vec![PhysicalPlan::leaf("memory_exec".to_owned(), s.clone())]);
    let shallow = PhysicalPlan::leaf("memory_exec".to_owned(), s.clone());
    let other = PhysicalPlan::leaf("memory_exec".to_owned(), s.clone());
    let mut ctx = context(node("union_exec", s.clone(), vec![deep, shallow, other]));
    assert_eq!(ctx.plan.first_leaf_path(), vec![1]);
    ctx.feed_one_source(&partitions);
    assert!(ctx.plan.children[0].children[0].partitions.is_empty());
    assert_eq!(inner(&ctx.plan.children[1].partitions), inner(&partitions));
    assert!(ctx.plan.children[2].partitions.is_empty());

    let mut lone = context(PhysicalPlan::leaf("memory_exec".to_owned(), s.clone()));
    assert!(lone.plan.first_leaf_path().is_empty());
    lone.feed_one_source(&partitions);
    assert_eq!(inner(&lone.plan.partitions), inner(&partitions));
}

#[test]
fn feed_two_source_matches_by_schema() {
    let schema1 = schema("a", "b");
    let schema2 = schema("c", "d");
    let partitions1 = vec![vec![batch(schema1.clone())]];
    let partitions2 = vec![vec![batch(schema2.clone())]];

    for swapped in [false, true] {
        let t1 = PhysicalPlan::leaf("memory_exec".to_owned(), schema1.clone());
        let t2 = PhysicalPlan::leaf("memory_exec".to_owned(), schema2.clone());
        let sides = if swapped { vec![t2, t1] } else { vec![t1, t2] };
        let join = node("hash_join_exec", schema1.clone(), sides);
        let mut ctx = context(node("sort_exec", schema1.clone(), vec![join]));
        ctx.feed_two_source(&partitions1, &partitions2);
        let join = &ctx.plan.children[0];
        let (one, two) = if swapped { (1, 0) } else { (0, 1) };
        assert_eq!(inner(&join.children[one].partitions), inner(&partitions1));
        assert_eq!(inner(&join.children[two].partitions), inner(&partitions2));
        assert!(join.partitions.is_empty());
        assert!(ctx.plan.partitions.is_empty());
    }
}

#[test]
fn feed_two_source_leaves_other_leaves_alone() {
    let schema1 = schema("a", "b");
    let schema2 = schema("c", "d");
    let schema3 = schema("e", "f");
    let partitions1 = vec![vec![batch(schema1.clone())]];
    let partitions2 = vec![vec![batch(schema2.clone())]];
    let mut ctx = context(PhysicalPlan::leaf("memory_exec".to_owned(), schema3));
    ctx.feed_two_source(&partitions1, &partitions2);
    assert!(ctx.plan.partitions.is_empty());
}

#[test]
fn contexts_compare_without_their_partitions() {
    let s = schema("a", "b");
    let make = |name: &str, next: CloudFunction, leaf_schema: Arc<Schema>| ExecutionContext {
        plan: node("filter_exec", s.clone(), vec![PhysicalPlan::leaf("memory_exec".to_owned(), leaf_schema)]),
        name: name.to_owned(),
        next,
        datasource: DataSource::Payload,
    };
    let a = make("x", CloudFunction::Chorus(("f".to_owned(), 8)), s.clone());
    let mut b = make("x", CloudFunction::Chorus(("f".to_owned(), 8)), s.clone());
    assert!(a == b);
    b.feed_one_source(&vec![vec![batch(s.clone())]]);
    assert!(a == b);
    assert!(a != make("y", CloudFunction::Chorus(("f".to_owned(), 8)), s.clone()));
    assert!(a != make("x", CloudFunction::Chorus(("f".to_owned(), 9)), s.clone()));
    assert!(a != make("x", CloudFunction::Solo("f".to_owned()), s.clone()));
    assert!(a != make("x", CloudFunction::Chorus(("f".to_owned(), 8)), schema("c", "d")));
    let mut c = make("x", CloudFunction::Chorus(("f".to_owned(), 8)), s.clone());
    c.datasource = DataSource::Event("kinesis".to_owned());
    assert!(a != c);
}

#[test]
fn routing_defaults_to_the_last_stage() {
    assert!(CloudFunction::default() == CloudFunction::Terminal);
    assert!(DataSource::default() == DataSource::UnknownEvent);
    let solo = CloudFunction::Solo("next".to_owned());
    assert!(solo.clone() == solo);
    assert!(solo != CloudFunction::Chorus(("next".to_owned(), 1)));
}

#[test]
fn plan_is_lent_for_changes() {
    let s = schema("a", "b");
    let mut ctx = context(PhysicalPlan::leaf("memory_exec".to_owned(), s.clone()));
    ctx.plan().operator = "csv_exec".to_owned();
    assert_eq!(ctx.plan.operator, "csv_exec");
}
