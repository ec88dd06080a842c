use vstd::prelude::*;

verus! {

/// A 256-bit identifier, held as four 64-bit limbs, least significant first.
#[derive(Clone, Copy, Debug, PartialEq, Eq, Hash, Structural)]
pub struct SubId {
    pub l0: u64,
    pub l1: u64,
    pub l2: u64,
    pub l3: u64,
}

impl SubId {
    pub fn same(&self, o: &SubId) -> (r: bool)
        ensures
            r == (*self == *o),
    {
        self.l0 == o.l0 && self.l1 == o.l1 && self.l2 == o.l2 && self.l3 == o.l3
    }
}

/// A JSON-RPC request identifier: a number, a string, or absent.
#[derive(Clone, Debug)]
pub enum RequestId {
    Number(u64),
    Str(String),
    Null,
}

/// What a request identifier stands for.
pub enum IdView {
    Number(u64),
    Str(Seq<char>),
    Null,
}

impl View for RequestId {
    type V = IdView;

    open spec fn view(&self) -> IdView {
        match self {
            RequestId::Number(n) => IdView::Number(*n),
            RequestId::Str(s) => IdView::Str(s@),
            RequestId::Null => IdView::Null,
        }
    }
}

impl RequestId {
    /// Whether two identifiers are the same.
    pub fn same(&self, o: &RequestId) -> (r: bool)
        ensures
            r == (self@ == o@),
    {
        match (self, o) {
            (RequestId::Number(a), RequestId::Number(b)) => *a == *b,
            (RequestId::Str(a), RequestId::Str(b)) => *a == *b,
            (RequestId::Null, RequestId::Null) => true,
            _ => false,
        }
    }

    /// A copy of the identifier.
    pub fn duplicate(&self) -> (r: RequestId)
        ensures
            r == *self,
    {
        match self {
            RequestId::Number(n) => RequestId::Number(*n),
            RequestId::Str(s) => RequestId::Str(s.clone()),
            RequestId::Null => RequestId::Null,
        }
    }
}

} // verus!
