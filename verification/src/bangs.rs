use vstd::prelude::*;

verus! {

/// A single alias-to-URL-template mapping ("bang"): the user invokes the
/// alias and the URL template is expanded with the query.
#[derive(Debug, PartialEq, Eq)]
pub struct Bang {
    pub alias: String,
    pub url: String,
}

/// Mathematical model of a `Bang`: both fields as character sequences.
pub struct BangView {
    pub alias: Seq<char>,
    pub url: Seq<char>,
}

impl View for Bang {
    type V = BangView;

    open spec fn view(&self) -> BangView {
        BangView { alias: self.alias@, url: self.url@ }
    }
}

impl Clone for Bang {
    fn clone(&self) -> (r: Self)
        ensures
            r == *self,
    {
        Bang { alias: self.alias.clone(), url: self.url.clone() }
    }
}

impl Bang {
    pub fn new(alias: String, url: String) -> (r: Self)
        ensures
            r@.alias == alias@,
            r@.url == url@,
    {
        Bang { alias, url }
    }
}

} // verus!
