//! The answers of the server to the client's initialization.
use vstd::prelude::*;

use crate::protocol::{InitializeResult, PositionEncodingKind, ServerCapabilities, ServerInfo};

verus! {

impl ServerCapabilities {
    /// The capabilities the server announces: positions are counted in UTF-16
    /// code units, and nothing else is offered up front.
    pub fn build() -> (c: Self)
        ensures
            c.position_encoding matches Some(PositionEncodingKind::Utf16),
            c.text_document_sync is None,
            c.notebook_document_sync is None,
            c.completion_provider is None,
            c.hover_provider is None,
            c.signature_help_provider is None,
            c.declaration_provider is None,
            c.definition_provider is None,
            c.type_definition_provider is None,
            c.implementation_provider is None,
            c.references_provider is None,
            c.document_highlight_provider is None,
            c.document_symbol_provider is None,
            c.code_action_provider is None,
            c.code_lens_provider is None,
            c.document_link_provider is None,
            c.color_provider is None,
            c.document_formatting_provider is None,
            c.document_range_formatting_provider is None,
            c.document_on_type_formatting_provider is None,
            c.rename_provider is None,
            c.folding_range_provider is None,
            c.execute_command_provider is None,
            c.selection_range_provider is None,
            c.linked_editing_range_provider is None,
            c.call_hierarchy_provider is None,
            c.semantic_tokens_provider is None,
            c.moniker_provider is None,
            c.type_hierarchy_provider is None,
            c.inline_value_provider is None,
            c.inlay_hint_provider is None,
            c.diagnostic_provider is None,
            c.workspace_symbol_provider is None,
            c.inline_completion_provider is None,
            c.text_document is None,
            c.workspace is None,
            c.experimental is None,
    {
        ServerCapabilities {
            position_encoding: Some(PositionEncodingKind::Utf16),
            text_document_sync: None,
            notebook_document_sync: None,
            completion_provider: None,
            hover_provider: None,
            signature_help_provider: None,
            declaration_provider: None,
            definition_provider: None,
            type_definition_provider: None,
            implementation_provider: None,
            references_provider: None,
            document_highlight_provider: None,
            document_symbol_provider: None,
            code_action_provider: None,
            code_lens_provider: None,
            document_link_provider: None,
            color_provider: None,
            document_formatting_provider: None,
            document_range_formatting_provider: None,
            document_on_type_formatting_provider: None,
            rename_provider: None,
            folding_range_provider: None,
            execute_command_provider: None,
            selection_range_provider: None,
            linked_editing_range_provider: None,
            call_hierarchy_provider: None,
            semantic_tokens_provider: None,
            moniker_provider: None,
            type_hierarchy_provider: None,
            inline_value_provider: None,
            inlay_hint_provider: None,
            diagnostic_provider: None,
            workspace_symbol_provider: None,
            inline_completion_provider: None,
            text_document: None,
            workspace: None,
            experimental: None,
        }
    }
}

/// The name by which the server introduces itself.
pub open spec fn server_name() -> Seq<char> {
    "t32-language-server"@
}

impl InitializeResult {
    pub fn build(capabilities: ServerCapabilities) -> (r: Self)
        ensures
            r.capabilities == capabilities,
            r.server_info matches Some(info) && info.name@ == server_name() && info.version is None,
    {
        Self {
            capabilities,
            server_info: Some(ServerInfo { name: String::from_str("t32-language-server"), version: None }),
        }
    }
}

} // verus!
