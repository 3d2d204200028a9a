use vstd::prelude::*;

verus! {

/// Owns the token ids gathered from successive transcription segments.
pub struct TokenManager {
    tokens: Vec<i32>,
}

impl View for TokenManager {
    type V = Seq<i32>;

    closed spec fn view(&self) -> Seq<i32> {
        self.tokens@
    }
}

impl TokenManager {
    /// Creates a manager that holds no tokens.
    pub fn new() -> (tm: Self)
        ensures
            tm@ == Seq::<i32>::empty(),
    {
        TokenManager { tokens: Vec::new() }
    }

    /// Appends `new_tokens`, in order, after the tokens already held.
    pub fn extend_tokens(&mut self, new_tokens: &[i32])
        ensures
            final(self)@ == old(self)@ + new_tokens@,
    {
        self.tokens.extend_from_slice(new_tokens);
        assert(self.tokens@ =~= old(self)@ + new_tokens@);
    }

    /// Lends out every token held, in the order in which they were added.
    pub fn get_tokens_slice(&self) -> (s: &[i32])
        ensures
            s@ == self@,
    {
        self.tokens.as_slice()
    }
}

} // verus!
