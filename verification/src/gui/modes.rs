//! Sort modes, densities and the flags that say which parts of the window
//! need rebuilding.

use vstd::prelude::*;

verus! {

/// Order of the library list.
#[derive(Clone, Copy, Debug, PartialEq, Eq, Structural)]
pub enum LibrarySortMode {
    Newest,
    Oldest,
    Longest,
    Shortest,
    Title,
}

/// The sort modes in the order the window lists them.
pub open spec fn sort_modes() -> Seq<LibrarySortMode> {
    seq![
        LibrarySortMode::Newest,
        LibrarySortMode::Oldest,
        LibrarySortMode::Longest,
        LibrarySortMode::Shortest,
        LibrarySortMode::Title,
    ]
}

/// The position of a sort mode in the window's list.
pub open spec fn sort_mode_index(m: LibrarySortMode) -> int {
    match m {
        LibrarySortMode::Newest => 0,
        LibrarySortMode::Oldest => 1,
        LibrarySortMode::Longest => 2,
        LibrarySortMode::Shortest => 3,
        LibrarySortMode::Title => 4,
    }
}

/// The sort mode at a list position; negative positions read as 0 and
/// positions past the end give `Newest`.
pub open spec fn sort_mode_at(index: int) -> LibrarySortMode {
    if index <= 0 || index >= 5 {
        LibrarySortMode::Newest
    } else {
        sort_modes()[index]
    }
}

impl LibrarySortMode {
    /// All sort modes, in list order.
    pub fn all() -> (r: [Self; 5])
        ensures
            r@ == sort_modes(),
    {
        let r = [Self::Newest, Self::Oldest, Self::Longest, Self::Shortest, Self::Title];
        assert(r@ =~= sort_modes());
        r
    }

    /// The label shown for the sort mode.
    pub fn label(self) -> (r: &'static str)
        ensures
            r@ == match self {
                Self::Newest => "Newest"@,
                Self::Oldest => "Oldest"@,
                Self::Longest => "Longest"@,
                Self::Shortest => "Shortest"@,
                Self::Title => "Title"@,
            },
    {
        match self {
            Self::Newest => "Newest",
            Self::Oldest => "Oldest",
            Self::Longest => "Longest",
            Self::Shortest => "Shortest",
            Self::Title => "Title",
        }
    }

    /// The sort mode at a list position (negative positions count as 0,
    /// positions past the end give `Newest`).
    pub fn from_index(index: i32) -> (r: Self)
        ensures
            r == sort_mode_at(index as int),
    {
        let i: i32 = if index < 0 {
            0
        } else {
            index
        };
        match i {
            1 => Self::Oldest,
            2 => Self::Longest,
            3 => Self::Shortest,
            4 => Self::Title,
            _ => Self::Newest,
        }
    }

    /// The list position of the sort mode; `from_index` gives the mode back.
    pub fn index(self) -> (r: i32)
        ensures
            r == sort_mode_index(self),
            sort_mode_at(r as int) == self,
            sort_modes()[r as int] == self,
    {
        match self {
            Self::Newest => 0,
            Self::Oldest => 1,
            Self::Longest => 2,
            Self::Shortest => 3,
            Self::Title => 4,
        }
    }

    /// The name under which the settings store the sort mode.
    pub fn setting(self) -> (r: &'static str)
        ensures
            r@ == match self {
                Self::Newest => "newest"@,
                Self::Oldest => "oldest"@,
                Self::Longest => "longest"@,
                Self::Shortest => "shortest"@,
                Self::Title => "title"@,
            },
    {
        match self {
            Self::Newest => "newest",
            Self::Oldest => "oldest",
            Self::Longest => "longest",
            Self::Shortest => "shortest",
            Self::Title => "title",
        }
    }

    /// The sort mode for a settings name; unknown names give `Newest`.
    pub fn from_setting(value: &str) -> (r: Self)
        ensures
            r == (if value@ == "oldest"@ {
                Self::Oldest
            } else if value@ == "longest"@ {
                Self::Longest
            } else if value@ == "shortest"@ {
                Self::Shortest
            } else if value@ == "title"@ {
                Self::Title
            } else {
                Self::Newest
            }),
    {
        let v = value.to_owned();
        if v == "oldest".to_owned() {
            Self::Oldest
        } else if v == "longest".to_owned() {
            Self::Longest
        } else if v == "shortest".to_owned() {
            Self::Shortest
        } else if v == "title".to_owned() {
            Self::Title
        } else {
            Self::Newest
        }
    }
}

/// Every sort mode survives a round trip through its list position.
pub proof fn lemma_sort_mode_index_roundtrip(m: LibrarySortMode)
    ensures
        sort_mode_at(sort_mode_index(m)) == m,
        0 <= sort_mode_index(m) < 5,
{
}

/// Every sort mode survives a round trip through its settings name.
pub proof fn lemma_sort_mode_setting_roundtrip(m: LibrarySortMode)
    ensures
        (if m.setting_name() == "oldest"@ {
            LibrarySortMode::Oldest
        } else if m.setting_name() == "longest"@ {
            LibrarySortMode::Longest
        } else if m.setting_name() == "shortest"@ {
            LibrarySortMode::Shortest
        } else if m.setting_name() == "title"@ {
            LibrarySortMode::Title
        } else {
            LibrarySortMode::Newest
        }) == m,
{
    reveal_strlit("newest");
    reveal_strlit("oldest");
    reveal_strlit("longest");
    reveal_strlit("shortest");
    reveal_strlit("title");
    assert("newest"@[0] == 'n');
    assert("oldest"@[0] == 'o');
    assert("longest"@[0] == 'l');
    assert("shortest"@[0] == 's');
    assert("title"@[0] == 't');
}

impl LibrarySortMode {
    /// The settings name of a sort mode.
    pub open spec fn setting_name(self) -> Seq<char> {
        match self {
            Self::Newest => "newest"@,
            Self::Oldest => "oldest"@,
            Self::Longest => "longest"@,
            Self::Shortest => "shortest"@,
            Self::Title => "title"@,
        }
    }
}

/// How densely the library list is laid out.
#[derive(Clone, Copy, Debug, PartialEq, Eq, Structural)]
pub enum ArticleDensity {
    Compact,
    Comfortable,
}

/// The density at a list position; anything but 1 gives `Compact`.
pub open spec fn density_at(index: int) -> ArticleDensity {
    if index == 1 {
        ArticleDensity::Comfortable
    } else {
        ArticleDensity::Compact
    }
}

impl ArticleDensity {
    /// All densities, in list order.
    pub fn all() -> (r: [Self; 2])
        ensures
            r@ == seq![Self::Compact, Self::Comfortable],
    {
        let r = [Self::Compact, Self::Comfortable];
        assert(r@ =~= seq![Self::Compact, Self::Comfortable]);
        r
    }

    /// The label shown for the density.
    pub fn label(self) -> (r: &'static str)
        ensures
            r@ == match self {
                Self::Compact => "Compact"@,
                Self::Comfortable => "Comfortable"@,
            },
    {
        match self {
            Self::Compact => "Compact",
            Self::Comfortable => "Comfortable",
        }
    }

    /// The density at a list position (negative positions count as 0,
    /// positions past the end give `Compact`).
    pub fn from_index(index: i32) -> (r: Self)
        ensures
            r == density_at(index as int),
    {
        if index == 1 {
            Self::Comfortable
        } else {
            Self::Compact
        }
    }

    /// The density for a settings name: `comfortable`, else `Compact`.
    pub fn from_setting(value: &str) -> (r: Self)
        ensures
            r == (if value@ == "comfortable"@ {
                Self::Comfortable
            } else {
                Self::Compact
            }),
    {
        if value.to_owned() == "comfortable".to_owned() {
            Self::Comfortable
        } else {
            Self::Compact
        }
    }

    /// The list position of the density; `from_index` gives it back.
    pub fn index(self) -> (r: i32)
        ensures
            density_at(r as int) == self,
            r == (match self {
                Self::Compact => 0i32,
                Self::Comfortable => 1i32,
            }),
    {
        match self {
            Self::Compact => 0,
            Self::Comfortable => 1,
        }
    }

    /// The settings name of the density; `from_setting` gives it back.
    pub fn setting(self) -> (r: &'static str)
        ensures
            r@ == match self {
                Self::Compact => "compact"@,
                Self::Comfortable => "comfortable"@,
            },
            (r@ == "comfortable"@) == (self == Self::Comfortable),
    {
        proof {
            reveal_strlit("compact");
            reveal_strlit("comfortable");
            assert("compact"@.len() != "comfortable"@.len());
        }
        match self {
            Self::Compact => "compact",
            Self::Comfortable => "comfortable",
        }
    }
}

/// Which parts of the window need rebuilding at the next sync.
#[derive(Clone, Copy, Debug, PartialEq, Eq, Structural)]
pub struct DirtyFlags {
    pub browse: bool,
    pub library: bool,
    pub stats: bool,
    pub collections: bool,
    pub preview: bool,
    pub progress: bool,
    pub activity: bool,
}

impl DirtyFlags {
    /// Every part needs rebuilding.
    pub open spec fn all_set(self) -> bool {
        self.browse && self.library && self.stats && self.collections && self.preview
            && self.progress && self.activity
    }

    /// No part needs rebuilding.
    pub open spec fn none_set(self) -> bool {
        !self.browse && !self.library && !self.stats && !self.collections && !self.preview
            && !self.progress && !self.activity
    }

    /// Flags with every part marked.
    pub fn all() -> (r: Self)
        ensures
            r.all_set(),
    {
        DirtyFlags {
            browse: true,
            library: true,
            stats: true,
            collections: true,
            preview: true,
            progress: true,
            activity: true,
        }
    }

    /// Marks every part as rebuilt.
    pub fn clear(&mut self)
        ensures
            final(self).none_set(),
    {
        *self = DirtyFlags::default();
    }
}

impl Default for DirtyFlags {
    fn default() -> (r: Self)
        ensures
            r.none_set(),
    {
        DirtyFlags {
            browse: false,
            library: false,
            stats: false,
            collections: false,
            preview: false,
            progress: false,
            activity: false,
        }
    }
}


/// Every density survives a round trip through its settings name.
pub proof fn lemma_density_setting_roundtrip(d: ArticleDensity)
    ensures
        ({
            let name = match d {
                ArticleDensity::Compact => "compact"@,
                ArticleDensity::Comfortable => "comfortable"@,
            };
            if name == "comfortable"@ {
                ArticleDensity::Comfortable
            } else {
                ArticleDensity::Compact
            }
        }) == d,
{
    reveal_strlit("compact");
    reveal_strlit("comfortable");
    assert("compact"@.len() != "comfortable"@.len());
}

} // verus!
