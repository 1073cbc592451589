//! The page template: a document split in three parts around the head and
//! the mount point, into which each request's tokens and first render are
//! spliced.

use vstd::prelude::*;

verus! {

/// A parsed page template, split in three parts: up to the head insertion
/// point, up to the mount point, and the rest.
pub struct TemplateProcess {
    /// The three document parts.
    pub html_parts: [String; 3],
}

impl TemplateProcess {
    /// Assembles the full document for one page load: the anti-forgery
    /// token goes into a meta tag in the head, and the session token, the
    /// per-load id and the first render's text go into the mount point.
    pub fn render(&self, csrf_token: &str, session: &str, id: &str, content: &str) -> (r: String)
        ensures
            r@ == self.html_parts@[0]@ + "<meta name=\"csrf-token\" content=\""@ + csrf_token@
                + "\" />"@ + self.html_parts@[1]@
                + "<div data-phx-main=\"true\" data-phx-static=\"\" data-phx-session="@
                + session@ + " id="@ + id@ + ">"@ + content@ + "</div>"@
                + self.html_parts@[2]@,
    {
        let mut out = String::new();
        out.append(self.html_parts[0].as_str());
        out.append("<meta name=\"csrf-token\" content=\"");
        out.append(csrf_token);
        out.append("\" />");
        out.append(self.html_parts[1].as_str());
        out.append("<div data-phx-main=\"true\" data-phx-static=\"\" data-phx-session=");
        out.append(session);
        out.append(" id=");
        out.append(id);
        out.append(">");
        out.append(content);
        out.append("</div>");
        out.append(self.html_parts[2].as_str());
        out
    }
}

} // verus!
