//! The drafts that importing a whole collection gives.
use vstd::prelude::*;

use crate::http_desk::model::{
    kv_views, text_views, var_views, AuthConfig, AuthView, BodyView, EnvVar, EnvVarView,
    KeyValueItem, KeyValueView, RequestBody,
};

verus! {

/// An imported request as plain text.
pub struct ImportedRequestView {
    pub name: Seq<char>,
    pub method: Seq<char>,
    pub url: Seq<char>,
    pub params: Seq<KeyValueView>,
    pub headers: Seq<KeyValueView>,
    pub auth: AuthView,
    pub body: BodyView,
    pub folder: Seq<Seq<char>>,
}

/// An imported collection as plain text.
pub struct ImportedCollectionView {
    pub name: Seq<char>,
    pub description: Option<Seq<char>>,
    pub variables: Seq<EnvVarView>,
    pub requests: Seq<ImportedRequestView>,
}

/// A request draft from a Postman or OpenAPI import. It has no id yet; its
/// `folder` says under which folders of the collection it is stored.
#[derive(Debug, Clone)]
pub struct ImportedRequest {
    pub name: String,
    pub method: String,
    pub url: String,
    pub params: Vec<KeyValueItem>,
    pub headers: Vec<KeyValueItem>,
    pub auth: AuthConfig,
    pub body: RequestBody,
    pub folder: Vec<String>,
}

impl View for ImportedRequest {
    type V = ImportedRequestView;

    open spec fn view(&self) -> ImportedRequestView {
        ImportedRequestView {
            name: self.name@,
            method: self.method@,
            url: self.url@,
            params: kv_views(self.params@),
            headers: kv_views(self.headers@),
            auth: self.auth@,
            body: self.body@,
            folder: text_views(self.folder@),
        }
    }
}

/// The views of a sequence of imported requests.
pub open spec fn request_views(v: Seq<ImportedRequest>) -> Seq<ImportedRequestView> {
    v.map_values(|r: ImportedRequest| r@)
}

/// A whole imported collection, before it is given a slug and stored.
#[derive(Debug, Clone)]
pub struct ImportedCollection {
    pub name: String,
    pub description: Option<String>,
    pub variables: Vec<EnvVar>,
    pub requests: Vec<ImportedRequest>,
}

impl View for ImportedCollection {
    type V = ImportedCollectionView;

    open spec fn view(&self) -> ImportedCollectionView {
        ImportedCollectionView {
            name: self.name@,
            description: match self.description {
                Some(d) => Some(d@),
                None => None,
            },
            variables: var_views(self.variables@),
            requests: request_views(self.requests@),
        }
    }
}

} // verus!
