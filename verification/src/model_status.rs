use vstd::prelude::*;

verus! {

/// The loading state of the model that the engine holds.
#[derive(Debug, Clone)]
pub struct ModelStatusInfo {
    pub current_model: Option<String>,
    pub loading_status: String,
    pub is_loaded: bool,
    pub error_message: Option<String>,
}

/// Status text before any model was asked for.
pub open spec fn status_not_initialized() -> Seq<char> {
    seq!['N', 'o', 't', ' ', 'i', 'n', 'i', 't', 'i', 'a', 'l', 'i', 'z', 'e', 'd']
}

/// Status text while a model is loading.
pub open spec fn status_loading() -> Seq<char> {
    seq!['L', 'o', 'a', 'd', 'i', 'n', 'g', '.', '.', '.']
}

/// Status text once a model is loaded.
pub open spec fn status_loaded() -> Seq<char> {
    seq!['L', 'o', 'a', 'd', 'e', 'd']
}

/// Status text after a failure.
pub open spec fn status_error() -> Seq<char> {
    seq!['E', 'r', 'r', 'o', 'r']
}

/// The model path held, as characters.
pub open spec fn opt_string_view(o: Option<String>) -> Option<Seq<char>> {
    match o {
        Some(s) => Some(s@),
        None => None,
    }
}

impl ModelStatusInfo {
    /// The model counts as loaded exactly when the status says so, and an
    /// error message is held only in the error state.
    pub open spec fn consistent(&self) -> bool {
        &&& self.is_loaded <==> self.loading_status@ == status_loaded()
        &&& self.error_message is Some ==> self.loading_status@ == status_error()
    }

    /// A fresh status: no model, not loaded, no error.
    pub fn new() -> (r: Self)
        ensures
            r.current_model is None,
            r.loading_status@ == status_not_initialized(),
            !r.is_loaded,
            r.error_message is None,
            r.consistent(),
    {
        let s = "Not initialized";
        proof {
            reveal_strlit("Not initialized");
        }
        ModelStatusInfo {
            current_model: None,
            loading_status: s.to_owned(),
            is_loaded: false,
            error_message: None,
        }
    }

    /// Records that `model_path` is being loaded.
    pub fn set_loading(&mut self, model_path: &str)
        ensures
            opt_string_view(final(self).current_model) == Some(model_path@),
            final(self).loading_status@ == status_loading(),
            !final(self).is_loaded,
            final(self).error_message is None,
            final(self).consistent(),
    {
        self.current_model = Some(model_path.to_owned());
        let s = "Loading...";
        proof {
            reveal_strlit("Loading...");
        }
        self.loading_status = s.to_owned();
        self.is_loaded = false;
        self.error_message = None;
    }

    /// Records that `model_path` is loaded and ready.
    pub fn set_loaded(&mut self, model_path: &str)
        ensures
            opt_string_view(final(self).current_model) == Some(model_path@),
            final(self).loading_status@ == status_loaded(),
            final(self).is_loaded,
            final(self).error_message is None,
            final(self).consistent(),
    {
        self.current_model = Some(model_path.to_owned());
        let s = "Loaded";
        proof {
            reveal_strlit("Loaded");
        }
        self.loading_status = s.to_owned();
        assert(self.loading_status@ =~= status_loaded());
        self.is_loaded = true;
        self.error_message = None;
    }

    /// Records a failure; the model path is kept.
    pub fn set_error(&mut self, error: &str)
        ensures
            opt_string_view(final(self).current_model) == opt_string_view(old(self).current_model),
            final(self).loading_status@ == status_error(),
            !final(self).is_loaded,
            opt_string_view(final(self).error_message) == Some(error@),
            final(self).consistent(),
    {
        let s = "Error";
        proof {
            reveal_strlit("Error");
        }
        self.loading_status = s.to_owned();
        assert(self.loading_status@ =~= status_error());
        assert(status_error().len() != status_loaded().len());
        self.is_loaded = false;
        self.error_message = Some(error.to_owned());
    }

    /// Back to the state of `new`.
    pub fn clear(&mut self)
        ensures
            final(self).current_model is None,
            final(self).loading_status@ == status_not_initialized(),
            !final(self).is_loaded,
            final(self).error_message is None,
            final(self).consistent(),
    {
        self.current_model = None;
        let s = "Not initialized";
        proof {
            reveal_strlit("Not initialized");
        }
        self.loading_status = s.to_owned();
        self.is_loaded = false;
        self.error_message = None;
    }
}

} // verus!
