//! Query parameters.

use vstd::prelude::*;

verus! {

/// The value of a query parameter: a list if its raw text holds a comma,
/// a single value otherwise.
#[derive(Clone, Debug, PartialEq, Eq)]
pub enum HttpParamValue {
    Singular(String),
    List(Vec<String>),
}

/// The mathematical content of an `HttpParamValue`.
pub enum ParamValueView {
    Singular(Seq<char>),
    List(Seq<Seq<char>>),
}

/// The views of a sequence of strings.
pub open spec fn string_views(v: Seq<String>) -> Seq<Seq<char>> {
    Seq::new(v.len(), |i: int| v[i]@)
}

impl View for HttpParamValue {
    type V = ParamValueView;

    open spec fn view(&self) -> ParamValueView {
        match self {
            HttpParamValue::Singular(s) => ParamValueView::Singular(s@),
            HttpParamValue::List(items) => ParamValueView::List(string_views(items@)),
        }
    }
}

/// A named query parameter.
#[derive(Clone, Debug, PartialEq, Eq)]
pub struct HttpParam {
    pub name: String,
    pub value: HttpParamValue,
}

} // verus!
