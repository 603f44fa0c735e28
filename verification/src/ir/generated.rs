//! What generated members tell the rest of the compilation about themselves.

use vstd::prelude::*;

use crate::ir::expr::FunId;
use crate::libraries::Visibility;
use crate::text::views;

verus! {

/// The lines a generated declaration is attributed to.
#[derive(Clone, Copy, Debug, PartialEq, Eq, Structural)]
pub enum IrGeneratedDeclarationDebug {
    /// Only the locals are described.
    LocalsOnly,
    DeclarationLine { line: u32 },
    DeclarationLineWithFallthrough { line: u32, end: u32 },
}

impl IrGeneratedDeclarationDebug {
    pub fn declaration_line(line: u32) -> (out: Self)
        ensures
            out == (IrGeneratedDeclarationDebug::DeclarationLine { line }),
    {
        IrGeneratedDeclarationDebug::DeclarationLine { line }
    }

    pub fn declaration_line_with_fallthrough(line: u32, end: u32) -> (out: Self)
        ensures
            out == (IrGeneratedDeclarationDebug::DeclarationLineWithFallthrough { line, end }),
    {
        IrGeneratedDeclarationDebug::DeclarationLineWithFallthrough { line, end }
    }
}

/// Whether the published functions are all that a class shows, or an addition.
#[derive(Clone, Copy, Debug, PartialEq, Eq, Structural)]
pub enum IrGeneratedFunctionMetadataScope {
    Additive,
    Exclusive,
}

/// What a generated function is for Kotlin callers.
#[derive(Debug)]
pub struct IrGeneratedFunctionMetadata {
    pub source_name: String,
    pub visibility: Visibility,
}

/// The model of the metadata of a generated function.
pub struct IrGeneratedFunctionMetadataView {
    pub source_name: Seq<char>,
    pub visibility: Visibility,
}

impl View for IrGeneratedFunctionMetadata {
    type V = IrGeneratedFunctionMetadataView;

    open spec fn view(&self) -> IrGeneratedFunctionMetadataView {
        IrGeneratedFunctionMetadataView {
            source_name: self.source_name@,
            visibility: self.visibility,
        }
    }
}

/// A generated function and what is published of it.
#[derive(Debug)]
pub struct IrGeneratedFunctionPublication {
    pub function: FunId,
    pub parameter_names: Vec<String>,
    pub metadata: Option<IrGeneratedFunctionMetadata>,
    pub debug: IrGeneratedDeclarationDebug,
}

/// The model of a published function.
#[verifier::ext_equal]
pub struct IrGeneratedFunctionPublicationView {
    pub function: FunId,
    pub parameter_names: Seq<Seq<char>>,
    pub metadata: Option<IrGeneratedFunctionMetadataView>,
    pub debug: IrGeneratedDeclarationDebug,
}

impl View for IrGeneratedFunctionPublication {
    type V = IrGeneratedFunctionPublicationView;

    open spec fn view(&self) -> IrGeneratedFunctionPublicationView {
        IrGeneratedFunctionPublicationView {
            function: self.function,
            parameter_names: views(self.parameter_names@),
            metadata: crate::text::option_view(self.metadata),
            debug: self.debug,
        }
    }
}

/// The generated functions of a class.
#[derive(Debug)]
pub struct IrGeneratedMemberPublication {
    pub metadata_scope: IrGeneratedFunctionMetadataScope,
    pub functions: Vec<IrGeneratedFunctionPublication>,
}

/// The model of the generated functions of a class.
#[verifier::ext_equal]
pub struct IrGeneratedMemberPublicationView {
    pub metadata_scope: IrGeneratedFunctionMetadataScope,
    pub functions: Seq<IrGeneratedFunctionPublicationView>,
}

impl View for IrGeneratedMemberPublication {
    type V = IrGeneratedMemberPublicationView;

    open spec fn view(&self) -> IrGeneratedMemberPublicationView {
        IrGeneratedMemberPublicationView {
            metadata_scope: self.metadata_scope,
            functions: views(self.functions@),
        }
    }
}

} // verus!
