use arrow::array::{ArrayRef, Float64Array, Int32Array, StringArray};
use arrow::datatypes::{DataType, Field, Schema};
use arrow::record_batch::RecordBatch;
use flock_runtime::arena::{Arena, HashAggregateStatus, WindowSession};
use flock_runtime::batch::Batch;
use flock_runtime::bitmap::Bitmap;
use flock_runtime::error::FlockError;
use flock_runtime::payload::{Payload, Uuid};
use std::sync::Arc;

const QID: &str = "SX72HzqFz1Qij4bP-00-2021-01-28T19:27:50.298504836";

fn city_schema() -> Arc<Schema> {
    Arc::new(Schema::new(vec![
        Field::new("city", DataType::Utf8, false),
        Field::new("lat", DataType::Float64, false),
        Field::new("lng", DataType::Float64, false),
    ]))
}

fn city_batch(i: usize) -> Batch {
    let names: ArrayRef = Arc::new(StringArray::from(vec![format!("city-{}", i)]));
    let lat: ArrayRef = Arc::new(Float64Array::from(vec![50.0 + i as f64]));
    let lng: ArrayRef = Arc::new(Float64Array::from(vec![-1.0 - i as f64]));
    Batch { inner: RecordBatch::try_new(city_schema(), vec![names, lat, lng]).unwrap() }
}

fn number_batch(v: i32) -> Batch {
    let schema = Arc::new(Schema::new(vec![Field::new("n", DataType::Int32, false)]));
    let col: ArrayRef = Arc::new(Int32Array::from(vec![v]));
    Batch { inner: RecordBatch::try_new(schema, vec![col]).unwrap() }
}

fn fragment(qid: &str, seq_num: usize, seq_len: usize, data: Vec<Batch>, data2: Vec<Batch>) -> Payload {
    let uuid = Uuid::new(qid.to_owned(), seq_num, seq_len, 0).unwrap();
    Payload { uuid, data, data2 }
}

fn collect(arena: &mut Arena, payload: Payload) -> HashAggregateStatus {
    assert!(arena.admits(&payload));
    arena.collect(payload)
}

#[test]
fn test_arena() {
    let batches: Vec<Batch> = (0..8).map(city_batch).collect();
    assert_eq!(8, batches.len());

    let mut arena = Arena::new();
    for (i, batch) in batches.into_iter().enumerate() {
        let payload = fragment(QID, i + 1, 8, vec![batch], vec![]);
        let status = collect(&mut arena, payload);
        if i < 7 {
            assert!(status == HashAggregateStatus::NotReady);
        } else {
            assert!(status == HashAggregateStatus::Ready);
        }
    }

    let window_id = (QID.to_owned(), 0);
    assert!(arena.get(&window_id).is_some());

    if let Some(window) = arena.get(&window_id) {
        assert_eq!(8, window.size);
        assert_eq!(8, window.r1_records.len());
        (0..8).for_each(|i| assert!(window.bitmap.is_set(i + 1)));
    }

    assert_eq!(8, arena.take_batches(&window_id)[0].len());
    assert_eq!(0, arena.take_batches(&("no exists".to_owned(), 0))[0].len());
}

#[test]
fn eight_fragments_then_a_repeat() {
    let mut arena = Arena::new();
    for i in 1..=7 {
        let status = collect(&mut arena, fragment(QID, i, 8, vec![number_batch(i as i32)], vec![]));
        assert_eq!(status, HashAggregateStatus::NotReady);
    }
    let window_id = (QID.to_owned(), 0);
    assert!(!arena.is_complete(&window_id));
    let status = collect(&mut arena, fragment(QID, 8, 8, vec![number_batch(8)], vec![]));
    assert_eq!(status, HashAggregateStatus::Ready);
    assert!(arena.is_complete(&window_id));
    let status = collect(&mut arena, fragment(QID, 3, 8, vec![number_batch(3)], vec![]));
    assert_eq!(status, HashAggregateStatus::Processed);
    let taken = arena.take_batches(&window_id);
    assert_eq!(taken.len(), 2);
    assert_eq!(taken[0].len(), 8);
    assert_eq!(taken[1].len(), 8);
}

#[test]
fn unknown_window() {
    let mut arena = Arena::new();
    let nope = ("nope".to_owned(), 0);
    let taken = arena.take_batches(&nope);
    assert_eq!(taken.len(), 2);
    assert!(taken[0].is_empty());
    assert!(taken[1].is_empty());
    assert!(!arena.is_complete(&nope));
    assert!(arena.get_bitmap(&nope).is_none());
    assert!(arena.get(&nope).is_none());
}

#[test]
fn any_order_with_repeats_is_ready_once() {
    let order = [4usize, 2, 2, 5, 1, 4, 3, 3, 5, 1];
    let expected = [
        HashAggregateStatus::NotReady,
        HashAggregateStatus::NotReady,
        HashAggregateStatus::Processed,
        HashAggregateStatus::NotReady,
        HashAggregateStatus::NotReady,
        HashAggregateStatus::Processed,
        HashAggregateStatus::Ready,
        HashAggregateStatus::Processed,
        HashAggregateStatus::Processed,
        HashAggregateStatus::Processed,
    ];
    let mut arena = Arena::new();
    let mut ready = 0;
    for (k, want) in order.iter().zip(expected.iter()) {
        let status = collect(&mut arena, fragment("q", *k, 5, vec![number_batch(*k as i32)], vec![]));
        assert_eq!(status, *want);
        if status == HashAggregateStatus::Ready {
            ready += 1;
        }
    }
    assert_eq!(ready, 1);
}

#[test]
fn groups_come_out_in_arrival_order() {
    let order = [3usize, 1, 3, 2];
    let mut arena = Arena::new();
    for k in order {
        collect(
            &mut arena,
            fragment("q", k, 3, vec![number_batch(k as i32)], vec![number_batch(10 * k as i32)]),
        );
    }
    let id = ("q".to_owned(), 0);
    let taken = arena.take_batches(&id);
    let firsts: Vec<RecordBatch> = taken[0].iter().map(|g| g[0].inner.clone()).collect();
    let seconds: Vec<RecordBatch> = taken[1].iter().map(|g| g[0].inner.clone()).collect();
    assert_eq!(firsts, vec![number_batch(3).inner, number_batch(1).inner, number_batch(2).inner]);
    assert_eq!(seconds, vec![number_batch(30).inner, number_batch(10).inner, number_batch(20).inner]);
    let again = arena.take_batches(&id);
    assert!(again[0].is_empty() && again[1].is_empty());
    assert!(arena.get(&id).is_none());
}

#[test]
fn single_fragment_window_is_ready_at_once() {
    let mut arena = Arena::new();
    let status = collect(&mut arena, fragment("one", 1, 1, vec![number_batch(1)], vec![]));
    assert_eq!(status, HashAggregateStatus::Ready);
    assert!(arena.is_complete(&("one".to_owned(), 0)));
}

#[test]
fn windows_do_not_disturb_each_other() {
    let mut arena = Arena::new();
    let a = Payload { uuid: Uuid::new("q".to_owned(), 1, 2, 0).unwrap(), data: vec![number_batch(1)], data2: vec![] };
    let b = Payload { uuid: Uuid::new("q".to_owned(), 1, 2, 1).unwrap(), data: vec![number_batch(2)], data2: vec![] };
    assert_eq!(collect(&mut arena, a), HashAggregateStatus::NotReady);
    assert_eq!(collect(&mut arena, b), HashAggregateStatus::NotReady);
    let c = Payload { uuid: Uuid::new("q".to_owned(), 2, 2, 1).unwrap(), data: vec![number_batch(3)], data2: vec![] };
    assert_eq!(collect(&mut arena, c), HashAggregateStatus::Ready);
    assert!(!arena.is_complete(&("q".to_owned(), 0)));
    assert!(arena.is_complete(&("q".to_owned(), 1)));
    assert_eq!(arena.take_batches(&("q".to_owned(), 1))[0].len(), 2);
    assert_eq!(arena.take_batches(&("q".to_owned(), 0))[0].len(), 1);
}

#[test]
fn two_arenas_with_half_a_window_each_never_get_ready() {
    let mut first = Arena::new();
    let mut second = Arena::new();
    for k in 1..=4usize {
        let target = if k % 2 == 0 { &mut first } else { &mut second };
        let status = collect(target, fragment("q", k, 4, vec![number_batch(k as i32)], vec![]));
        assert_eq!(status, HashAggregateStatus::NotReady);
    }
    let id = ("q".to_owned(), 0);
    assert!(!first.is_complete(&id));
    assert!(!second.is_complete(&id));
}

#[test]
fn mismatched_length_is_not_admitted() {
    let mut arena = Arena::new();
    collect(&mut arena, fragment("q", 1, 4, vec![number_batch(1)], vec![]));
    let other = fragment("q", 2, 5, vec![number_batch(2)], vec![]);
    assert!(!arena.admits(&other));
    let fine = fragment("q", 2, 4, vec![number_batch(2)], vec![]);
    assert!(arena.admits(&fine));
}

#[test]
fn uuid_must_lie_in_its_window() {
    assert!(Uuid::new("q".to_owned(), 0, 3, 0).is_none());
    assert!(Uuid::new("q".to_owned(), 4, 3, 0).is_none());
    let u = Uuid::new("q".to_owned(), 3, 3, 7).unwrap();
    assert_eq!(u.get_window_id(), ("q".to_owned(), 7));
    assert_eq!((u.seq_num, u.seq_len), (3, 3));
}

#[test]
fn payload_hands_out_both_relations() {
    let p = fragment("q", 1, 1, vec![number_batch(1), number_batch(2)], vec![number_batch(3)]);
    assert_eq!(p.get_window_id(), ("q".to_owned(), 0));
    let (r1, r2) = p.to_record_batch();
    assert_eq!(r1.len(), 2);
    assert_eq!(r2.len(), 1);
    assert_eq!(r2[0].inner, number_batch(3).inner);
}

#[test]
fn bitmap_marks() {
    let mut b = Bitmap::new(200);
    assert_eq!(b.size(), 200);
    for i in 0..200 {
        assert!(!b.is_set(i));
    }
    b.set(0);
    b.set(63);
    b.set(64);
    b.set(199);
    b.set(64);
    b.set(64);
    for i in 0..200 {
        assert_eq!(b.is_set(i), i == 0 || i == 63 || i == 64 || i == 199);
    }
}

#[test]
fn bitmap_of_a_window_shows_what_arrived() {
    let mut arena = Arena::new();
    collect(&mut arena, fragment("q", 2, 3, vec![number_batch(2)], vec![]));
    let id = ("q".to_owned(), 0);
    let bitmap = arena.get_bitmap(&id).unwrap();
    assert_eq!(bitmap.size(), 4);
    assert!(!bitmap.is_set(0));
    assert!(!bitmap.is_set(1));
    assert!(bitmap.is_set(2));
    assert!(!bitmap.is_set(3));
}

#[test]
fn schema_of_a_window() {
    let empty = WindowSession { size: 2, r1_records: vec![], r2_records: vec![], bitmap: Bitmap::new(3) };
    assert_eq!(empty.schema().unwrap_err(), FlockError::EmptyWindow);
    let hollow = WindowSession { size: 2, r1_records: vec![vec![]], r2_records: vec![vec![]], bitmap: Bitmap::new(3) };
    assert_eq!(hollow.schema().unwrap_err(), FlockError::EmptyWindow);

    let mut arena = Arena::new();
    collect(&mut arena, fragment("one", 1, 2, vec![city_batch(1)], vec![]));
    let (first, second) = arena.get(&("one".to_owned(), 0)).unwrap().schema().unwrap();
    assert_eq!(first, city_schema());
    assert!(second.is_none());

    collect(&mut arena, fragment("two", 1, 2, vec![city_batch(1)], vec![number_batch(1)]));
    let (first, second) = arena.get(&("two".to_owned(), 0)).unwrap().schema().unwrap();
    assert_eq!(first, city_schema());
    assert_eq!(second.unwrap(), number_batch(1).inner.schema());
}

#[test]
fn error_messages() {
    assert_eq!(FlockError::EmptyWindow.message(), "Record batches are empty.");
    assert_eq!(FlockError::MalformedEnvelope.message(), "The envelope is malformed.");
    assert_eq!(FlockError::UnsupportedEncoding.message(), "The encoding is not supported.");
    let failure = FlockError::plan_failure("out of memory", "MemoryExec");
    assert_eq!(failure.message(), "out of memory. Failed to execute the plan 'MemoryExec'");
    assert_eq!(failure, FlockError::Plan("out of memory. Failed to execute the plan 'MemoryExec'".to_owned()));
    assert_eq!(failure.clone(), failure);
    assert!(failure != FlockError::EmptyWindow);
}
