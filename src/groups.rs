//! Selection of the built-in type groups.

use vstd::prelude::*;

verus! {

/// Which blocks of built-in mappings a resolver consults.
#[derive(Debug, Clone, Copy, PartialEq, Eq, Structural)]
pub struct TypeGroups {
    /// Language primitives (`i8`, `u32`, `f64`, `bool`, `char`, `str`, ...).
    pub primitives: bool,
    /// Prelude types (`String`, `Vec`, `Option`, `Result`, `Box`).
    pub prelude: bool,
    /// Common standard-library types (`HashMap`, `Arc`, `Rc`, ...).
    pub common_std: bool,
}

impl TypeGroups {
    /// No group.
    pub open spec fn none_spec() -> TypeGroups {
        TypeGroups { primitives: false, prelude: false, common_std: false }
    }

    /// Primitives only.
    pub open spec fn primitives_spec() -> TypeGroups {
        TypeGroups { primitives: true, prelude: false, common_std: false }
    }

    /// Primitives and prelude types.
    pub open spec fn prelude_spec() -> TypeGroups {
        TypeGroups { primitives: true, prelude: true, common_std: false }
    }

    /// Every group.
    pub open spec fn all_spec() -> TypeGroups {
        TypeGroups { primitives: true, prelude: true, common_std: true }
    }
}

/// No group is enabled.
pub open spec fn no_groups(g: TypeGroups) -> bool {
    !g.primitives && !g.prelude && !g.common_std
}

impl TypeGroups {
    /// No type groups.
    pub fn none() -> (r: TypeGroups)
        ensures
            r == TypeGroups::none_spec(),
    {
        TypeGroups { primitives: false, prelude: false, common_std: false }
    }

    /// Only language primitives.
    pub fn primitives_only() -> (r: TypeGroups)
        ensures
            r == TypeGroups::primitives_spec(),
    {
        TypeGroups { primitives: true, prelude: false, common_std: false }
    }

    /// Primitives and prelude types.
    pub fn with_prelude() -> (r: TypeGroups)
        ensures
            r == TypeGroups::prelude_spec(),
    {
        TypeGroups { primitives: true, prelude: true, common_std: false }
    }

    /// Primitives, prelude types and common standard-library types.
    pub fn all() -> (r: TypeGroups)
        ensures
            r == TypeGroups::all_spec(),
    {
        TypeGroups { primitives: true, prelude: true, common_std: true }
    }

    /// Whether no group is enabled.
    pub fn is_empty(&self) -> (r: bool)
        ensures
            r == no_groups(*self),
    {
        !self.primitives && !self.prelude && !self.common_std
    }
}

impl Default for TypeGroups {
    fn default() -> (r: TypeGroups)
        ensures
            no_groups(r),
    {
        TypeGroups::none()
    }
}

} // verus!
