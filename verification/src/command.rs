//! The analyzer commands shared by the command-line and interactive
//! front ends, and what each command tells the engine.

use vstd::prelude::*;

use crate::entities::CursorCoordinates;

verus! {

/// Unified command wrapper for both front ends.
pub struct CommandWrapper {
    /// The command to run.
    pub command: AnalyzerCommand,
}

/// One analyzer operation with its arguments.
pub enum AnalyzerCommand {
    /// Get a type hint for a position.
    TypeHint {
        /// Path to the source file.
        file_path: String,
        /// Line number (1-based).
        line: u32,
        /// Column number (1-based).
        column: u32,
        /// Optional symbol to search for near the coordinates.
        symbol: Option<String>,
    },
    /// Get definition details for the symbol at a position.
    GetDefinition {
        /// Path to the source file.
        file_path: String,
        /// Line number (1-based).
        line: u32,
        /// Column number (1-based).
        column: u32,
        /// Optional symbol to search for near the coordinates.
        symbol: Option<String>,
    },
    /// Get completion suggestions at a position.
    GetCompletions {
        /// Path to the source file.
        file_path: String,
        /// Line number (1-based).
        line: u32,
        /// Column number (1-based).
        column: u32,
        /// Optional symbol to search for near the coordinates.
        symbol: Option<String>,
    },
    /// Find all references to the symbol at a position.
    FindReferences {
        /// Path to the source file.
        file_path: String,
        /// Line number (1-based).
        line: u32,
        /// Column number (1-based).
        column: u32,
        /// Optional symbol to search for near the coordinates.
        symbol: Option<String>,
    },
    /// View a file with inlay hints embedded.
    ViewInlayHints {
        /// Path to the source file.
        file_path: String,
        /// Starting line number (1-based, optional).
        start_line: Option<u32>,
        /// Ending line number (1-based, optional).
        end_line: Option<u32>,
    },
    /// List the code assists available at a position.
    GetAssists {
        /// Path to the source file.
        file_path: String,
        /// Line number (1-based).
        line: u32,
        /// Column number (1-based).
        column: u32,
        /// Optional symbol to search for near the coordinates.
        symbol: Option<String>,
    },
    /// Apply one code assist at a position.
    ApplyAssist {
        /// Path to the source file.
        file_path: String,
        /// Line number (1-based).
        line: u32,
        /// Column number (1-based).
        column: u32,
        /// Identifier of the assist to apply.
        assist_id: String,
        /// Optional symbol to search for near the coordinates.
        symbol: Option<String>,
    },
    /// Search for symbols across the workspace.
    GetWorkspaceSymbols {
        /// Path to any file inside the target workspace.
        file_path: String,
        /// Case-insensitive query string.
        query: String,
    },
    /// Rename the symbol at a position.
    RenameSymbol {
        /// Path to the source file.
        file_path: String,
        /// Line number (1-based).
        line: u32,
        /// Column number (1-based).
        column: u32,
        /// New name for the symbol.
        new_name: String,
        /// Optional symbol to search for near the coordinates.
        symbol: Option<String>,
    },
}

/// The file path a command names.
pub open spec fn spec_command_path(command: AnalyzerCommand) -> Seq<char> {
    match command {
        AnalyzerCommand::TypeHint { file_path, .. } => file_path@,
        AnalyzerCommand::GetDefinition { file_path, .. } => file_path@,
        AnalyzerCommand::GetCompletions { file_path, .. } => file_path@,
        AnalyzerCommand::FindReferences { file_path, .. } => file_path@,
        AnalyzerCommand::ViewInlayHints { file_path, .. } => file_path@,
        AnalyzerCommand::GetAssists { file_path, .. } => file_path@,
        AnalyzerCommand::ApplyAssist { file_path, .. } => file_path@,
        AnalyzerCommand::GetWorkspaceSymbols { file_path, .. } => file_path@,
        AnalyzerCommand::RenameSymbol { file_path, .. } => file_path@,
    }
}

/// The path used to locate the workspace a command works in.
pub fn extract_workspace_path(command: &AnalyzerCommand) -> (r: String)
    ensures
        r@ == spec_command_path(*command),
{
    let p: &String = match command {
        AnalyzerCommand::TypeHint { file_path, .. } => file_path,
        AnalyzerCommand::GetDefinition { file_path, .. } => file_path,
        AnalyzerCommand::GetCompletions { file_path, .. } => file_path,
        AnalyzerCommand::FindReferences { file_path, .. } => file_path,
        AnalyzerCommand::ViewInlayHints { file_path, .. } => file_path,
        AnalyzerCommand::GetAssists { file_path, .. } => file_path,
        AnalyzerCommand::ApplyAssist { file_path, .. } => file_path,
        AnalyzerCommand::GetWorkspaceSymbols { file_path, .. } => file_path,
        AnalyzerCommand::RenameSymbol { file_path, .. } => file_path,
    };
    p.clone()
}

impl AnalyzerCommand {
    /// The cursor a position-based command works at; nothing for the
    /// whole-file and workspace-wide commands.
    pub fn cursor(&self) -> (r: Option<CursorCoordinates>)
        ensures
            (match *self {
                AnalyzerCommand::TypeHint { file_path, line, column, symbol } => cursor_is(
                    r,
                    file_path,
                    line,
                    column,
                    symbol,
                ),
                AnalyzerCommand::GetDefinition { file_path, line, column, symbol } => cursor_is(
                    r,
                    file_path,
                    line,
                    column,
                    symbol,
                ),
                AnalyzerCommand::GetCompletions { file_path, line, column, symbol } => cursor_is(
                    r,
                    file_path,
                    line,
                    column,
                    symbol,
                ),
                AnalyzerCommand::FindReferences { file_path, line, column, symbol } => cursor_is(
                    r,
                    file_path,
                    line,
                    column,
                    symbol,
                ),
                AnalyzerCommand::GetAssists { file_path, line, column, symbol } => cursor_is(
                    r,
                    file_path,
                    line,
                    column,
                    symbol,
                ),
                AnalyzerCommand::ApplyAssist { file_path, line, column, symbol, .. } => cursor_is(
                    r,
                    file_path,
                    line,
                    column,
                    symbol,
                ),
                AnalyzerCommand::RenameSymbol { file_path, line, column, symbol, .. } => cursor_is(
                    r,
                    file_path,
                    line,
                    column,
                    symbol,
                ),
                AnalyzerCommand::ViewInlayHints { .. } => r is None,
                AnalyzerCommand::GetWorkspaceSymbols { .. } => r is None,
            }),
    {
        match self {
            AnalyzerCommand::TypeHint { file_path, line, column, symbol }
            | AnalyzerCommand::GetDefinition { file_path, line, column, symbol }
            | AnalyzerCommand::GetCompletions { file_path, line, column, symbol }
            | AnalyzerCommand::FindReferences { file_path, line, column, symbol }
            | AnalyzerCommand::GetAssists { file_path, line, column, symbol } => Option::Some(
                CursorCoordinates {
                    file_path: file_path.clone(),
                    line: *line,
                    column: *column,
                    symbol: clone_symbol(symbol),
                },
            ),
            AnalyzerCommand::ApplyAssist { file_path, line, column, symbol, .. } => Option::Some(
                CursorCoordinates {
                    file_path: file_path.clone(),
                    line: *line,
                    column: *column,
                    symbol: clone_symbol(symbol),
                },
            ),
            AnalyzerCommand::RenameSymbol { file_path, line, column, symbol, .. } => Option::Some(
                CursorCoordinates {
                    file_path: file_path.clone(),
                    line: *line,
                    column: *column,
                    symbol: clone_symbol(symbol),
                },
            ),
            AnalyzerCommand::ViewInlayHints { .. } => Option::None,
            AnalyzerCommand::GetWorkspaceSymbols { .. } => Option::None,
        }
    }
}

/// The option holds a cursor with exactly these fields.
pub open spec fn cursor_is(
    r: Option<CursorCoordinates>,
    file_path: String,
    line: u32,
    column: u32,
    symbol: Option<String>,
) -> bool {
    &&& r is Some
    &&& r->Some_0.file_path == file_path
    &&& r->Some_0.line == line
    &&& r->Some_0.column == column
    &&& r->Some_0.symbol == symbol
}

/// Copy of an optional symbol name.
fn clone_symbol(s: &Option<String>) -> (r: Option<String>)
    ensures
        r == *s,
{
    match s {
        Option::None => Option::None,
        Option::Some(x) => Option::Some(x.clone()),
    }
}

} // verus!
