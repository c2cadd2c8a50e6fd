use vstd::prelude::*;

verus! {

/// How a selection list is applied to the decoded elements.
#[derive(Debug, Clone, Copy, PartialEq, Eq, Structural)]
pub enum FilterMode {
    /// Every element is kept.
    NoFilter,
    /// Only the listed elements are kept.
    Whitelist,
    /// The listed elements are dropped.
    Blacklist,
}

/// The selection policy handed to a decode. Only [`FilterMode::NoFilter`] can be
/// built; the decoder consults no selection list.
#[derive(Debug, Clone, PartialEq, Eq, Structural)]
pub struct Filter {
    mode: FilterMode,
}

impl Filter {
    /// The mode of this filter.
    pub closed spec fn mode(&self) -> FilterMode {
        self.mode
    }

    /// The filter that keeps everything.
    #[inline]
    pub fn none() -> (f: Self)
        ensures
            f.mode() == FilterMode::NoFilter,
    {
        Filter { mode: FilterMode::NoFilter }
    }
}

impl Default for Filter {
    fn default() -> (f: Self)
        ensures
            f.mode() == FilterMode::NoFilter,
    {
        Filter::none()
    }
}

} // verus!
