//! The dispatcher: carries requests out on the store and answers them.
use crate::error::RedisError;
use crate::protocol::request::{Request, RequestView};
use crate::protocol::response::{Response, ResponseView};
use crate::protocol::set::SetRequest;
use crate::storage::{stored, written, Storage};
use vstd::prelude::*;

verus! {

/// The answer to a request, given what the store holds.
pub open spec fn reply(entries: Map<Seq<char>, Seq<char>>, request: RequestView) -> ResponseView {
    match request {
        RequestView::Ping => ResponseView::Ping,
        RequestView::Echo(text) => ResponseView::Echo(text),
        RequestView::SetKey(_) => ResponseView::Okay,
        RequestView::Get(key) => ResponseView::Get(stored(entries, key)),
    }
}

/// What the store holds after a request: only `SET` changes it.
pub open spec fn entries_after(entries: Map<Seq<char>, Seq<char>>, request: RequestView) -> Map<
    Seq<char>,
    Seq<char>,
> {
    match request {
        RequestView::SetKey(set) => written(entries, set),
        _ => entries,
    }
}

/// Processes the requests of clients on a store of its own.
pub struct RequestProcessor {
    storage: Storage,
}

impl View for RequestProcessor {
    type V = Map<Seq<char>, Seq<char>>;

    closed spec fn view(&self) -> Map<Seq<char>, Seq<char>> {
        self.storage@
    }
}

impl RequestProcessor {
    /// A processor with an empty store.
    pub fn new() -> (processor: RequestProcessor)
        ensures
            processor@ == Map::<Seq<char>, Seq<char>>::empty(),
    {
        RequestProcessor { storage: Storage::new() }
    }

    /// Carries a request out and gives the answer to it. No request fails.
    pub fn process_request(&mut self, request: Request) -> (r: Result<Response, RedisError>)
        ensures
            r matches Ok(response) && response@ == reply(old(self)@, request@),
            final(self)@ == entries_after(old(self)@, request@),
    {
        match request {
            Request::Ping => Ok(Response::Ping),
            Request::Echo(text) => Ok(Response::Echo(text)),
            Request::SetKey(request) => self.process_request_set(request),
            Request::Get(key) => self.process_request_get(key),
        }
    }

    /// Answers with the value kept under a key, or with nothing where the
    /// key was never written.
    pub fn process_request_get(&self, key: String) -> (r: Result<Response, RedisError>)
        ensures
            r matches Ok(response) && response@ == ResponseView::Get(stored(self@, key@)),
    {
        match self.storage.get(key.as_str()) {
            Some(value) => Ok(Response::Get(Some(value))),
            None => Ok(Response::Get(None)),
        }
    }

    /// Keeps a value under a key and confirms it.
    pub fn process_request_set(&mut self, request: SetRequest) -> (r: Result<Response, RedisError>)
        ensures
            r matches Ok(response) && response@ == ResponseView::Okay,
            final(self)@ == written(old(self)@, request@),
    {
        self.storage.set(request);
        Ok(Response::Okay)
    }
}

} // verus!
