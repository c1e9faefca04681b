//! Configuration options for HTML to Markdown conversion.

use vstd::prelude::*;

verus! {

/// Heading style for markdown output.
#[derive(Debug, Clone, Copy, PartialEq, Eq, Structural)]
pub enum HeadingStyle {
    /// ATX style: a leading run of `#` characters.
    Atx,
    /// Setext style: text underlined with `=` or `-`.
    Setext,
}

/// Link style for markdown output.
#[derive(Debug, Clone, Copy, PartialEq, Eq, Structural)]
pub enum LinkStyle {
    /// Inline style: `[text](url)`.
    Inline,
    /// Referenced style: `[text][1]` with definitions at the end.
    Referenced,
}

/// Configuration options for HTML to Markdown conversion.
#[derive(Debug, Clone)]
pub struct Options {
    /// CSS selectors for elements to exclude from output.
    pub exclude_selectors: Vec<String>,
    /// CSS selectors for elements to always include (overrides exclude).
    pub include_selectors: Vec<String>,
    /// Heading style.
    pub heading_style: HeadingStyle,
    /// Character for code fences.
    pub code_fence: char,
    /// Link style.
    pub link_style: LinkStyle,
    /// Bullet character for unordered lists.
    pub bullet_marker: char,
    /// Base URL for resolving relative links.
    pub base_url: Option<String>,
}

/// The default configuration: ATX headings, inline links, backtick fences,
/// dash bullets, no base URL, no selectors.
pub open spec fn is_default_options(o: Options) -> bool {
    &&& o.exclude_selectors@.len() == 0
    &&& o.include_selectors@.len() == 0
    &&& o.heading_style == HeadingStyle::Atx
    &&& o.code_fence == '`'
    &&& o.link_style == LinkStyle::Inline
    &&& o.bullet_marker == '-'
    &&& o.base_url is None
}

impl Default for Options {
    /// The default configuration.
    fn default() -> (r: Options)
        ensures
            is_default_options(r),
    {
        Options {
            exclude_selectors: Vec::new(),
            include_selectors: Vec::new(),
            heading_style: HeadingStyle::Atx,
            code_fence: '`',
            link_style: LinkStyle::Inline,
            bullet_marker: '-',
            base_url: None,
        }
    }
}

impl Options {
    /// Create a new `Options` with default values.
    pub fn new() -> (r: Options)
        ensures
            is_default_options(r),
    {
        Options {
            exclude_selectors: Vec::new(),
            include_selectors: Vec::new(),
            heading_style: HeadingStyle::Atx,
            code_fence: '`',
            link_style: LinkStyle::Inline,
            bullet_marker: '-',
            base_url: None,
        }
    }

    /// Set CSS selectors to exclude.
    pub fn exclude_selectors(self, selectors: Vec<String>) -> (r: Options)
        ensures
            r.exclude_selectors == selectors,
            r.include_selectors == self.include_selectors,
            r.heading_style == self.heading_style,
            r.code_fence == self.code_fence,
            r.link_style == self.link_style,
            r.bullet_marker == self.bullet_marker,
            r.base_url == self.base_url,
    {
        Options { exclude_selectors: selectors, ..self }
    }

    /// Set CSS selectors to always include.
    pub fn include_selectors(self, selectors: Vec<String>) -> (r: Options)
        ensures
            r.include_selectors == selectors,
            r.exclude_selectors == self.exclude_selectors,
            r.heading_style == self.heading_style,
            r.code_fence == self.code_fence,
            r.link_style == self.link_style,
            r.bullet_marker == self.bullet_marker,
            r.base_url == self.base_url,
    {
        Options { include_selectors: selectors, ..self }
    }

    /// Set heading style.
    pub fn heading_style(self, style: HeadingStyle) -> (r: Options)
        ensures
            r.heading_style == style,
            r.exclude_selectors == self.exclude_selectors,
            r.include_selectors == self.include_selectors,
            r.code_fence == self.code_fence,
            r.link_style == self.link_style,
            r.bullet_marker == self.bullet_marker,
            r.base_url == self.base_url,
    {
        Options { heading_style: style, ..self }
    }

    /// Set code fence character.
    pub fn code_fence(self, fence: char) -> (r: Options)
        ensures
            r.code_fence == fence,
            r.exclude_selectors == self.exclude_selectors,
            r.include_selectors == self.include_selectors,
            r.heading_style == self.heading_style,
            r.link_style == self.link_style,
            r.bullet_marker == self.bullet_marker,
            r.base_url == self.base_url,
    {
        Options { code_fence: fence, ..self }
    }

    /// Set link style.
    pub fn link_style(self, style: LinkStyle) -> (r: Options)
        ensures
            r.link_style == style,
            r.exclude_selectors == self.exclude_selectors,
            r.include_selectors == self.include_selectors,
            r.heading_style == self.heading_style,
            r.code_fence == self.code_fence,
            r.bullet_marker == self.bullet_marker,
            r.base_url == self.base_url,
    {
        Options { link_style: style, ..self }
    }

    /// Set bullet marker for unordered lists.
    pub fn bullet_marker(self, marker: char) -> (r: Options)
        ensures
            r.bullet_marker == marker,
            r.exclude_selectors == self.exclude_selectors,
            r.include_selectors == self.include_selectors,
            r.heading_style == self.heading_style,
            r.code_fence == self.code_fence,
            r.link_style == self.link_style,
            r.base_url == self.base_url,
    {
        Options { bullet_marker: marker, ..self }
    }

    /// Set base URL for resolving relative links.
    pub fn base_url(self, url: Option<String>) -> (r: Options)
        ensures
            r.base_url == url,
            r.exclude_selectors == self.exclude_selectors,
            r.include_selectors == self.include_selectors,
            r.heading_style == self.heading_style,
            r.code_fence == self.code_fence,
            r.link_style == self.link_style,
            r.bullet_marker == self.bullet_marker,
    {
        Options { base_url: url, ..self }
    }
}

} // verus!
