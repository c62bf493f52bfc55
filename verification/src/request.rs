//! What rows to ask the service for, and the shape of the request that
//! asks for them.

use vstd::prelude::*;
use vstd::string::StringExecFns;
use crate::filter::Filter;
use crate::raw::{fields_view, lemma_raw_view, RawModel, RawValue};
use crate::text::{int_text, text_of_int};

verus! {

/// The rows to ask for: all of a table, the one with an identifier, or
/// those that a filter lets through.
#[derive(Debug)]
pub enum Selection {
    All,
    Id(i32),
    Filter(Filter),
}

impl Selection {
    /// Whether the request can be built: the operands of a filter must all
    /// have an untyped form.
    pub open spec fn encodable(self) -> bool {
        match self {
            Selection::Filter(filter) => filter.encodable(),
            _ => true,
        }
    }

    /// Whether one row is asked for, by its identifier.
    pub open spec fn by_id(self) -> bool {
        self is Id
    }

    /// The body of the request: none for a row by its identifier, the empty
    /// object for all rows, and the encoding of the filter otherwise.
    pub open spec fn body_model(self) -> Option<RawModel> {
        match self {
            Selection::All => Some(RawModel::Object(Seq::empty())),
            Selection::Id(_) => None,
            Selection::Filter(filter) => Some(filter.encoded()),
        }
    }

    /// The address of the request below the address `base` of the service.
    pub open spec fn address(self, base: Seq<char>, table_name: Seq<char>) -> Seq<char> {
        match self {
            Selection::Id(id) => base + "/api/item/"@ + table_name + "/"@ + text_of_int(id as int),
            _ => base + "/api/items/"@ + table_name,
        }
    }

    /// Whether one row is asked for, by its identifier. The service then
    /// answers with one object, and otherwise with an array of objects.
    pub fn is_by_id(&self) -> (b: bool)
        ensures
            b == self.by_id(),
    {
        match self {
            Selection::Id(_) => true,
            _ => false,
        }
    }

    /// Whether the request can be built.
    pub fn is_encodable(&self) -> (b: bool)
        ensures
            b == self.encodable(),
    {
        match self {
            Selection::Filter(filter) => filter.is_encodable(),
            _ => true,
        }
    }

    /// The body of the request, if it has one.
    pub fn body(&self) -> (body: Option<RawValue>)
        requires
            self.encodable(),
        ensures
            match body {
                Some(raw) => self.body_model() == Some(raw@),
                None => self.body_model().is_none(),
            },
    {
        match self {
            Selection::All => {
                let raw = RawValue::Object(Vec::new());
                proof {
                    lemma_raw_view(raw);
                    assert(fields_view(Seq::<(String, RawValue)>::empty()) =~= Seq::empty());
                }
                Some(raw)
            },
            Selection::Id(_) => None,
            Selection::Filter(filter) => Some(filter.encode()),
        }
    }

    /// The address of the request for the rows of `table_name`, below the
    /// address `base` of the service.
    pub fn url(&self, base: &str, table_name: &str) -> (url: String)
        ensures
            url@ == self.address(base@, table_name@),
    {
        let mut url = base.to_owned();
        match self {
            Selection::Id(id) => {
                url.append("/api/item/");
                url.append(table_name);
                url.append("/");
                let digits = int_text(*id as i64);
                url.append(digits.as_str());
            },
            _ => {
                url.append("/api/items/");
                url.append(table_name);
            },
        }
        url
    }
}

} // verus!
