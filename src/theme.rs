use vstd::prelude::*;

verus! {

/// How a selection prompt is drawn. Each method returns the text of one
/// terminal line; the caller writes it out.
pub trait Theme {
    /// The prompt line above the items.
    fn format_prompt(&self, prompt: &str) -> String;

    /// The prompt line of a paged list, with the page shown (counted from
    /// one) and the number of pages.
    fn format_paged_prompt(&self, prompt: &str, page: usize, pages: usize) -> String;

    /// One item, marked when it is highlighted.
    fn format_item(&self, text: &str, active: bool) -> String;

    /// The line left behind once an item has been chosen.
    fn format_selection(&self, prompt: &str, selection: &str) -> String;
}

/// A plain theme without colors.
pub struct SimpleTheme;

impl Theme for SimpleTheme {
    fn format_prompt(&self, prompt: &str) -> String {
        String::from_str(prompt).concat(":")
    }

    fn format_paged_prompt(&self, prompt: &str, page: usize, pages: usize) -> String {
        let page_text = page.to_string();
        let pages_text = pages.to_string();
        String::from_str(prompt).concat(" [Page ").concat(page_text.as_str()).concat("/").concat(
            pages_text.as_str(),
        ).concat("]:")
    }

    fn format_item(&self, text: &str, active: bool) -> String {
        let marker = if active {
            "> "
        } else {
            "  "
        };
        String::from_str(marker).concat(text)
    }

    fn format_selection(&self, prompt: &str, selection: &str) -> String {
        String::from_str(prompt).concat(": ").concat(selection)
    }
}

} // verus!
