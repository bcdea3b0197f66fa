use kvs::engine::KvStore;
use kvs::network::{decode_request, decode_response, encode_request, encode_response, process_request, Request, Response};
use kvs::server::{check_engine_tag, Engine};
use kvs::thread_pool::{pool_size, workers_for, Next, SharedQueueThreadPool, Turn, Worker};
use kvs::err::{ParseError, ServerNotMatch};

fn s(x: &str) -> String {
    x.to_owned()
}

#[test]
fn request_round_trip() {
    let reqs = vec![
        Request::Get { key: s("a") },
        Request::Put { key: s("a"), value: s("b \"c\"") },
        Request::Remove { key: s("ü") },
    ];
    for q in reqs {
        assert_eq!(decode_request(&encode_request(&q)), Some(q.clone()));
    }
}

#[test]
fn response_round_trip() {
    let resps = vec![Response::Value(s("v")), Response::NotFound, Response::Success];
    for p in resps {
        assert_eq!(decode_response(&encode_response(&p)), Some(p.clone()));
    }
}

#[test]
fn wire_forms() {
    assert_eq!(encode_request(&Request::Get { key: s("missing") }), br#"{"Get":{"key":"missing"}}"#.to_vec());
    assert_eq!(encode_response(&Response::NotFound), br#""NotFound""#.to_vec());
    assert_eq!(encode_response(&Response::Success), br#""Success""#.to_vec());
    assert_eq!(encode_response(&Response::Value(s("v"))), br#"{"Value":"v"}"#.to_vec());
    assert_eq!(decode_response(br#""Other""#), None);
    assert_eq!(decode_request(br#"{"Get":{}}"#), None);
}

#[test]
fn get_missing_answers_not_found() {
    let mut store = KvStore::open(Vec::new());
    let q = decode_request(br#"{"Get":{"key":"missing"}}"#).unwrap();
    assert_eq!(process_request(&mut store, q), Response::NotFound);
}

#[test]
fn remove_missing_answers_not_found() {
    let mut store = KvStore::open(Vec::new());
    assert_eq!(process_request(&mut store, Request::Remove { key: s("missing") }), Response::NotFound);
}

#[test]
fn requests_against_store() {
    let mut store = KvStore::open(Vec::new());
    assert_eq!(process_request(&mut store, Request::Put { key: s("k"), value: s("v1") }), Response::Success);
    assert_eq!(process_request(&mut store, Request::Put { key: s("k"), value: s("v2") }), Response::Success);
    assert_eq!(process_request(&mut store, Request::Get { key: s("k") }), Response::Value(s("v2")));
    assert_eq!(process_request(&mut store, Request::Remove { key: s("k") }), Response::Success);
    assert_eq!(process_request(&mut store, Request::Get { key: s("k") }), Response::NotFound);
}

#[test]
fn engine_names() {
    assert_eq!(Engine::from_name("kvs"), Ok(Engine::Kvs));
    assert_eq!(Engine::from_name("sled"), Ok(Engine::Sled));
    assert_eq!(Engine::from_name("other"), Err(ParseError));
}

#[test]
fn engine_marker() {
    assert_eq!(check_engine_tag(Engine::Kvs, 0), Ok(1));
    assert_eq!(check_engine_tag(Engine::Kvs, 1), Ok(1));
    assert_eq!(check_engine_tag(Engine::Sled, 0), Ok(2));
    assert_eq!(check_engine_tag(Engine::Sled, 1), Err(ServerNotMatch));
    assert_eq!(check_engine_tag(Engine::Kvs, 2), Err(ServerNotMatch));
}

#[test]
fn pool_sizes() {
    assert_eq!(workers_for(4, 8), 4);
    assert_eq!(workers_for(0, 8), 8);
    assert!(pool_size(0) >= 1);
    assert_eq!(pool_size(3), 3);
    assert_eq!(SharedQueueThreadPool::new(5).workers, 5);
}

#[test]
fn panicking_job_keeps_worker_count() {
    let w = Worker;
    assert_eq!(w.on_loop(Turn::Ran), Next::Continue);
    assert_eq!(w.on_loop(Turn::Panicked), Next::Replace);
    assert_eq!(w.on_loop(Turn::Closed), Next::Exit);
}

#[test]
fn rayon_pool_runs_jobs() {
    let pool = kvs::thread_pool::RayonThreadPool::new(2).unwrap();
    let (tx, rx) = std::sync::mpsc::channel();
    for i in 0..4u32 {
        let tx = tx.clone();
        pool.spawn(move || {
            tx.send(i).unwrap();
        });
    }
    let mut got: Vec<u32> = (0..4).map(|_| rx.recv().unwrap()).collect();
    got.sort();
    assert_eq!(got, vec![0, 1, 2, 3]);
}
