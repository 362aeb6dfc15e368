//! The record syntax, as the `syn` parser reads it.
//!
//! Nothing in here is proved, and nothing is promised: what the parser
//! makes of a text, and how `proc_macro2` spaces the parts it prints, may
//! differ from one run to another (inside a compiler's macro expansion
//! both go through the compiler). The rest of the library is verified for
//! whatever comes back.

use crate::record::FieldKind::{Named, Unit, Unnamed};
use crate::record::{Field, RecordDefinition};
use quote::ToTokens;
use syn::{Fields, ItemStruct};
use vstd::prelude::*;

verus! {

/// Reads `text` as one identifier with `syn::parse_str::<syn::Ident>` and
/// hands out its name, or nothing where the parser turns the text down.
///
/// Trusted, without a contract: it only has to return.
#[verifier::external_body]
pub(crate) fn parse_identifier(text: &str) -> (name: Option<String>) {
    syn::parse_str::<syn::Ident>(text).ok().map(|ident| ident.to_string())
}

/// Reads `text` as identifiers separated by commas, with
/// `syn::punctuated::Punctuated::parse_terminated` run by
/// `syn::parse::Parser::parse_str`, and hands out their names in order, or
/// nothing where the parser turns the text down.
///
/// Trusted, without a contract: it only has to return.
#[verifier::external_body]
pub(crate) fn parse_names(text: &str) -> (names: Option<Vec<String>>) {
    let list = syn::punctuated::Punctuated::<syn::Ident, syn::token::Comma>::parse_terminated;
    let names = syn::parse::Parser::parse_str(list, text).ok()?;
    Some(names.iter().map(|ident| ident.to_string()).collect())
}

/// Reads `text` as a struct definition with
/// `syn::parse_str::<syn::ItemStruct>` and hands out its parts as plain
/// strings, each printed by `quote::ToTokens`, with the kind of its field
/// list; or nothing where the parser turns the text down. A field without
/// a name comes back with an empty name.
///
/// Trusted, without a contract: it only has to return.
#[verifier::external_body]
pub(crate) fn parse_record(text: &str) -> (record: Option<RecordDefinition>) {
    let item = syn::parse_str::<ItemStruct>(text).ok()?;
    Some(RecordDefinition {
        name: item.ident.to_string(),
        kind: match &item.fields {
            Fields::Named(_) => Named,
            Fields::Unnamed(_) => Unnamed,
            Fields::Unit => Unit,
        },
        attributes: item.attrs.iter().map(|a| a.to_token_stream().to_string()).collect(),
        visibility: item.vis.to_token_stream().to_string(),
        generics: item.generics.to_token_stream().to_string(),
        bounds: item.generics.where_clause.to_token_stream().to_string(),
        fields: item.fields.iter().map(|f| Field { name: f.ident.to_token_stream().to_string(), declaration: f.to_token_stream().to_string() }).collect(),
    })
}

} // verus!
