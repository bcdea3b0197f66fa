//! The messages of the wire protocol, and what the server answers to each.
use vstd::prelude::*;
use crate::codec::{
    nested_json, nested_parsed, flat_json, flat_parsed, string_json, string_parsed, fields_view,
    names_ascending, key_fields, key_value_fields, s_key, s_value, s_set, s_get, s_remove,
    s_value_tag, s_not_found, s_success, lemma_fields_ascending, get_name, set_name, remove_name,
    value_tag_name, not_found_name, success_name, fields_of_key, fields_of_key_value,
    one_entry_fields, write_nested, read_nested, write_flat, read_flat, write_string, read_string,
};
use crate::codec::CommandModel;
use crate::engine::{appended, fits, KvStore};

verus! {

/// A client's request.
#[derive(Debug, Clone, PartialEq, Eq)]
pub enum Request {
    Get { key: String },
    Put { key: String, value: String },
    Remove { key: String },
}

/// The server's answer.
#[derive(Debug, Clone, PartialEq, Eq)]
pub enum Response {
    Value(String),
    NotFound,
    Success,
}

pub enum RequestModel {
    Get { key: Seq<char> },
    Put { key: Seq<char>, value: Seq<char> },
    Remove { key: Seq<char> },
}

pub enum ResponseModel {
    Value(Seq<char>),
    NotFound,
    Success,
}

impl View for Request {
    type V = RequestModel;

    open spec fn view(&self) -> RequestModel {
        match self {
            Request::Get { key } => RequestModel::Get { key: key@ },
            Request::Put { key, value } => RequestModel::Put { key: key@, value: value@ },
            Request::Remove { key } => RequestModel::Remove { key: key@ },
        }
    }
}

impl View for Response {
    type V = ResponseModel;

    open spec fn view(&self) -> ResponseModel {
        match self {
            Response::Value(v) => ResponseModel::Value(v@),
            Response::NotFound => ResponseModel::NotFound,
            Response::Success => ResponseModel::Success,
        }
    }
}

/// A request is written as its tag (`Get`, `Set`, `Remove`) over its named fields.
pub open spec fn request_payload(q: RequestModel) -> Seq<u8> {
    match q {
        RequestModel::Get { key } => nested_json(s_get(), key_fields(key)),
        RequestModel::Put { key, value } => nested_json(s_set(), key_value_fields(key, value)),
        RequestModel::Remove { key } => nested_json(s_remove(), key_fields(key)),
    }
}

pub open spec fn request_of_entries(e: Seq<(Seq<char>, Seq<(Seq<char>, Seq<char>)>)>) -> Option<RequestModel> {
    if e.len() == 1 && e[0].0 == s_get() && e[0].1.len() == 1 && e[0].1[0].0 == s_key() {
        Some(RequestModel::Get { key: e[0].1[0].1 })
    } else if e.len() == 1 && e[0].0 == s_set() && e[0].1.len() == 2 && e[0].1[0].0 == s_key()
        && e[0].1[1].0 == s_value() {
        Some(RequestModel::Put { key: e[0].1[0].1, value: e[0].1[1].1 })
    } else if e.len() == 1 && e[0].0 == s_remove() && e[0].1.len() == 1 && e[0].1[0].0 == s_key() {
        Some(RequestModel::Remove { key: e[0].1[0].1 })
    } else {
        None
    }
}

pub open spec fn request_of_payload(b: Seq<u8>) -> Option<RequestModel> {
    match nested_parsed(b) {
        Some(e) => request_of_entries(e),
        None => None,
    }
}

/// `Value` is written as a one-field map; `NotFound` and `Success` as their names.
pub open spec fn response_payload(p: ResponseModel) -> Seq<u8> {
    match p {
        ResponseModel::Value(v) => flat_json(seq![(s_value_tag(), v)]),
        ResponseModel::NotFound => string_json(s_not_found()),
        ResponseModel::Success => string_json(s_success()),
    }
}

pub open spec fn response_of_payload(b: Seq<u8>) -> Option<ResponseModel> {
    match string_parsed(b) {
        Some(s) => if s == s_not_found() {
            Some(ResponseModel::NotFound)
        } else if s == s_success() {
            Some(ResponseModel::Success)
        } else {
            None
        },
        None => match flat_parsed(b) {
            Some(f) => if f.len() == 1 && f[0].0 == s_value_tag() {
                Some(ResponseModel::Value(f[0].1))
            } else {
                None
            },
            None => None,
        },
    }
}

pub open spec fn opt_request_view(r: Option<Request>) -> Option<RequestModel> {
    match r {
        Some(q) => Some(q@),
        None => None,
    }
}

pub open spec fn opt_response_view(r: Option<Response>) -> Option<ResponseModel> {
    match r {
        Some(p) => Some(p@),
        None => None,
    }
}

/// Encodes a request; decoding the bytes gives the request back.
pub fn encode_request(q: &Request) -> (r: Vec<u8>)
    ensures
        r@ == request_payload(q@),
        request_of_payload(r@) == Some(q@),
{
    proof {
        assert(s_set() != s_remove());
        assert(s_get() != s_remove());
        assert(s_get() != s_set());
    }
    match q {
        Request::Get { key } => {
            proof { lemma_fields_ascending(key@, key@); }
            write_nested(&get_name(), &fields_of_key(key))
        },
        Request::Put { key, value } => {
            proof { lemma_fields_ascending(key@, value@); }
            write_nested(&set_name(), &fields_of_key_value(key, value))
        },
        Request::Remove { key } => {
            proof { lemma_fields_ascending(key@, key@); }
            write_nested(&remove_name(), &fields_of_key(key))
        },
    }
}

/// Decodes a request. A payload must hold exactly the fields of its
/// variant: one with fields besides them is refused.
pub fn decode_request(b: &[u8]) -> (r: Option<Request>)
    ensures
        opt_request_view(r) == request_of_payload(b@),
{
    match read_nested(b) {
        None => None,
        Some(e) => {
            proof {
                assert(s_set() != s_remove());
                assert(s_get() != s_remove());
                assert(s_get() != s_set());
            }
            match one_entry_fields(&e, &get_name(), false) {
                Some((key, _)) => Some(Request::Get { key }),
                None => match one_entry_fields(&e, &set_name(), true) {
                    Some((key, value)) => Some(Request::Put { key, value }),
                    None => match one_entry_fields(&e, &remove_name(), false) {
                        Some((key, _)) => Some(Request::Remove { key }),
                        None => None,
                    },
                },
            }
        },
    }
}

/// Encodes a response; decoding the bytes gives the response back.
pub fn encode_response(p: &Response) -> (r: Vec<u8>)
    ensures
        r@ == response_payload(p@),
        response_of_payload(r@) == Some(p@),
{
    proof {
        assert(s_not_found() != s_success());
    }
    match p {
        Response::Value(v) => {
            let mut f: Vec<(String, String)> = Vec::new();
            f.push((value_tag_name(), v.clone()));
            assert(fields_view(f@) =~= seq![(s_value_tag(), v@)]);
            assert(names_ascending(fields_view(f@)));
            write_flat(&f)
        },
        Response::NotFound => write_string(&not_found_name()),
        Response::Success => write_string(&success_name()),
    }
}

/// Decodes a response.
pub fn decode_response(b: &[u8]) -> (r: Option<Response>)
    ensures
        opt_response_view(r) == response_of_payload(b@),
{
    match read_string(b) {
        Some(s) => {
            if s == not_found_name() {
                Some(Response::NotFound)
            } else if s == success_name() {
                Some(Response::Success)
            } else {
                None
            }
        },
        None => match read_flat(b) {
            Some(f) => {
                if f.len() == 1 && f[0].0 == value_tag_name() {
                    Some(Response::Value(f[0].1.clone()))
                } else {
                    None
                }
            },
            None => None,
        },
    }
}

/// Runs one request against the store. A `Get` that fails reads as
/// `NotFound`; a `Set` answers `Success` whatever the store says; a `Remove`
/// that fails answers `NotFound`. The store fails a write only where its
/// log cannot grow, and is then left as it was.
pub fn process_request(engine: &mut KvStore, q: Request) -> (r: Response)
    requires
        old(engine).wf(),
    ensures
        final(engine).wf(),
        match q@ {
            RequestModel::Get { key } => {
                &&& *final(engine) == *old(engine)
                &&& r@ == if old(engine).view().contains_key(key) {
                    ResponseModel::Value(old(engine).view()[key])
                } else {
                    ResponseModel::NotFound
                }
            },
            RequestModel::Put { key, value } => {
                &&& r@ == ResponseModel::Success
                &&& if fits(*old(engine), CommandModel::Put { key, value }) {
                    &&& final(engine).view() == old(engine).view().insert(key, value)
                    &&& appended(*old(engine), *final(engine), CommandModel::Put { key, value })
                } else {
                    *final(engine) == *old(engine)
                }
            },
            RequestModel::Remove { key } => if old(engine).view().contains_key(key) {
                if fits(*old(engine), CommandModel::Remove { key }) {
                    &&& r@ == ResponseModel::Success
                    &&& final(engine).view() == old(engine).view().remove(key)
                    &&& appended(*old(engine), *final(engine), CommandModel::Remove { key })
                } else {
                    r@ == ResponseModel::NotFound && *final(engine) == *old(engine)
                }
            } else {
                r@ == ResponseModel::NotFound && *final(engine) == *old(engine)
            },
        },
{
    match q {
        Request::Get { key } => match engine.get(key) {
            Ok(Some(v)) => Response::Value(v),
            _ => Response::NotFound,
        },
        Request::Put { key, value } => {
            let _ = engine.set(key, value);
            Response::Success
        },
        Request::Remove { key } => match engine.remove(key) {
            Ok(()) => Response::Success,
            Err(_) => Response::NotFound,
        },
    }
}

} // verus!
