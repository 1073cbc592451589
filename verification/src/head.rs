//! The HTML head of a served page: title, meta tags, styles and scripts.

use vstd::prelude::*;

verus! {

/// Html head containing title, meta, styles, and scripts.
pub struct Head {
    /// The page title.
    pub title: &'static str,
    /// Meta tags.
    pub meta: Vec<Meta>,
    /// Style elements.
    pub styles: Vec<Style>,
    /// Script elements.
    pub scripts: Vec<Script>,
}

/// Html meta tag.
pub struct Meta {
    /// The tag's attributes.
    pub attrs: Vec<MetaAttr>,
}

/// Html meta attribute.
pub struct MetaAttr {
    /// The attribute name.
    pub name: &'static str,
    /// The attribute value.
    pub value: &'static str,
}

/// Style element.
pub enum Style {
    /// Link to external css styles.
    Link(&'static str),
    /// Embedded CSS placed in a style tag.
    Css(&'static str),
}

/// Script element.
pub enum Script {
    /// Link to an external script.
    Link {
        /// The script address.
        href: &'static str,
        /// Whether the script is deferred.
        defer: bool,
    },
    /// Embedded JavaScript placed in a script tag.
    Js(&'static str),
}

impl Head {
    /// Create new empty head with a page title.
    pub fn new(title: &'static str) -> (r: Head)
        ensures
            r.title == title,
            r.meta@.len() == 0,
            r.styles@.len() == 0,
            r.scripts@.len() == 0,
    {
        Head { title, meta: Vec::new(), styles: Vec::new(), scripts: Vec::new() }
    }

    /// Create new head with defaults: the charset, compatibility and
    /// viewport meta tags.
    pub fn defaults() -> (r: Head)
        ensures
            r.meta@.len() == 3,
            r.styles@.len() == 0,
            r.scripts@.len() == 0,
    {
        let mut charset_attrs: Vec<MetaAttr> = Vec::new();
        charset_attrs.push(MetaAttr { name: "charset", value: "utf-8" });
        let mut compat_attrs: Vec<MetaAttr> = Vec::new();
        compat_attrs.push(MetaAttr { name: "http-equiv", value: "X-UA-Compatible" });
        compat_attrs.push(MetaAttr { name: "content", value: "IE=edge" });
        let mut viewport_attrs: Vec<MetaAttr> = Vec::new();
        viewport_attrs.push(
            MetaAttr { name: "viewport", value: "width=device-width, initial-scale=1.0" },
        );
        Head::new("live_view").with_meta(Meta { attrs: charset_attrs }).with_meta(
            Meta { attrs: compat_attrs },
        ).with_meta(Meta { attrs: viewport_attrs })
    }

    /// Set the page title.
    pub fn with_title(self, title: &'static str) -> (r: Head)
        ensures
            r.title == title,
            r.meta == self.meta,
            r.styles == self.styles,
            r.scripts == self.scripts,
    {
        let mut h = self;
        h.title = title;
        h
    }

    /// Add a meta element.
    pub fn with_meta(self, meta: Meta) -> (r: Head)
        ensures
            r.title == self.title,
            r.meta@ == self.meta@.push(meta),
            r.styles == self.styles,
            r.scripts == self.scripts,
    {
        let mut h = self;
        h.meta.push(meta);
        h
    }

    /// Add a style element.
    pub fn with_style(self, style: Style) -> (r: Head)
        ensures
            r.title == self.title,
            r.meta == self.meta,
            r.styles@ == self.styles@.push(style),
            r.scripts == self.scripts,
    {
        let mut h = self;
        h.styles.push(style);
        h
    }

    /// Add a script element.
    pub fn with_script(self, script: Script) -> (r: Head)
        ensures
            r.title == self.title,
            r.meta == self.meta,
            r.styles == self.styles,
            r.scripts@ == self.scripts@.push(script),
    {
        let mut h = self;
        h.scripts.push(script);
        h
    }
}

} // verus!
