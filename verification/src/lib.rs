//! A small survey-form library: it renders a fixed HTML form page, decodes
//! `application/x-www-form-urlencoded` submissions into a typed record, and
//! models the effect of each accepted submission on the stored collection.

pub mod form;
pub mod pages;
pub mod store;
pub mod submission;
