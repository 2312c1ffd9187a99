use vstd::prelude::*;

verus! {

/// The mathematical value of a [`Configuration`].
pub struct ConfigView {
    pub active: bool,
    pub url: Seq<char>,
    pub clone_path: Option<Seq<char>>,
}

/// One project: where its sources come from, whether it takes part in
/// clone/start/stop, and where it was cloned once that happened.
pub struct Configuration {
    pub active: bool,
    pub url: String,
    pub clone_path: Option<String>,
}

/// The view of an optional string.
pub open spec fn opt_view(o: Option<String>) -> Option<Seq<char>> {
    match o {
        Some(s) => Some(s@),
        None => None,
    }
}

impl View for Configuration {
    type V = ConfigView;

    open spec fn view(&self) -> ConfigView {
        ConfigView { active: self.active, url: self.url@, clone_path: opt_view(self.clone_path) }
    }
}

impl Configuration {
    /// A freshly added configuration: active, and not cloned yet.
    pub fn new(url: String) -> (r: Configuration)
        ensures
            r@ == (ConfigView { active: true, url: url@, clone_path: None }),
    {
        Configuration { active: true, url, clone_path: None }
    }

    /// Records that the project now lives at `clone_path`.
    pub fn clone_project(&mut self, clone_path: String)
        ensures
            final(self)@ == (ConfigView { clone_path: Some(clone_path@), ..old(self)@ }),
    {
        self.clone_path = Some(clone_path);
    }
}

} // verus!
