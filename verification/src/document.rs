//! The structure of a document: a main section that behaves like a word processor,
//! extra sections that are dynamic forms, and the metadata around them.
#![allow(clippy::upper_case_acronyms)]
use vstd::prelude::*;

verus! {

/// The structure of a document.
pub struct AST {
    pub metadata: Metadata,
    pub main_section: MainSection,
    pub extra_sections: ExtraSection,
}

/// This is part of a document that behaves like a word processor.
pub struct MainSection {
    pub elements: Vec<Element>,
}

/// An element can be a paragraph, a heading, a table, etc.
pub struct Element {
    pub id: ElementId,
    pub kind: ElementKind,
    pub wrapper: Option<ElementWrapper>,
}

pub struct ElementId();

pub enum ElementKind {
    Paragraph,
    Heading,
    Table,
    Image,
    Equation,
    Quote,
}

pub struct ElementWrapper {}

/// An extra document section is a dynamic form.
pub struct ExtraSection {}

pub struct Metadata {
    pub name: String,
    pub settings: Vec<Setting>,
    pub template: Template,
}

pub struct Setting {}

pub struct Template {
    pub id: String,
    pub name: String,
    pub variant: TemplateVariant,
}

pub struct TemplateVariant {}

} // verus!
