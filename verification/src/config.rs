use vstd::prelude::*;

verus! {

/// How recognised keywords are rendered.
#[derive(Debug, Clone, Copy, PartialEq, Eq, Structural)]
pub enum KeywordCase {
    Upper,
    Lower,
    Capitalize,
}

/// The SQL dialect that drives parsing and dialect-specific layout.
#[derive(Debug, Clone, Copy, PartialEq, Eq, Structural)]
pub enum DialectKind {
    Ansi,
    Dremio,
}

/// Handling of templated (Jinja/dbt) SQL.
#[derive(Debug, Clone, Copy, PartialEq, Eq, Structural)]
pub enum TemplatingMode {
    Passthrough,
    Dbt,
}

/// Select-list layout strategy.
#[derive(Debug, Clone, Copy, PartialEq, Eq, Structural)]
pub enum SelectListStyle {
    Auto,
    PerLine,
}

/// The effective formatter settings.
#[derive(Debug, Clone, Copy, PartialEq, Eq, Structural)]
pub struct FormatterConfig {
    pub line_length: usize,
    pub indent_width: usize,
    pub keyword_case: KeywordCase,
    pub dialect: DialectKind,
    pub templating: TemplatingMode,
    pub select_list_style: SelectListStyle,
    pub strict: bool,
}

impl FormatterConfig {
    /// The built-in defaults.
    pub open spec fn spec_default() -> FormatterConfig {
        FormatterConfig {
            line_length: 100,
            indent_width: 2,
            keyword_case: KeywordCase::Upper,
            dialect: DialectKind::Ansi,
            templating: TemplatingMode::Passthrough,
            select_list_style: SelectListStyle::Auto,
            strict: false,
        }
    }
}

impl Default for FormatterConfig {
    fn default() -> (r: Self)
        ensures
            r == FormatterConfig::spec_default(),
    {
        FormatterConfig {
            line_length: 100,
            indent_width: 2,
            keyword_case: KeywordCase::Upper,
            dialect: DialectKind::Ansi,
            templating: TemplatingMode::Passthrough,
            select_list_style: SelectListStyle::Auto,
            strict: false,
        }
    }
}

} // verus!
