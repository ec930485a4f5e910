//! The maze map entity: a display name and the grid rows.

use vstd::prelude::*;
use vstd::string::*;

use crate::text::{spec_lines, split_lines};

verus! {

/// The display name given at construction lacks the map-file suffix.
#[derive(Clone, Copy, Debug, PartialEq, Eq, Structural)]
pub struct NameError;

/// A named maze map: the display name and the grid as rows of cell
/// characters.
#[derive(Debug)]
pub struct MazeMap {
    /// Display name: the file name with its suffix stripped.
    pub key: String,
    /// The grid, one string per row.
    pub data: Vec<String>,
}

/// Two maps are the same exactly when their names and full grid contents
/// agree.
pub open spec fn map_eqv(a: &MazeMap, b: &MazeMap) -> bool {
    a.key@ == b.key@ && a.data.deep_view() == b.data.deep_view()
}

/// Whether the map-file suffix starts at position `i` of `s`.
pub open spec fn suffix_at(s: Seq<char>, i: int) -> bool {
    &&& 0 <= i
    &&& i + 7 <= s.len()
    &&& s[i] == '.'
    &&& s[i + 1] == 'l'
    &&& s[i + 2] == 'a'
    &&& s[i + 3] == 'b'
    &&& s[i + 4] == 'm'
    &&& s[i + 5] == 'a'
    &&& s[i + 6] == 'p'
}

/// Largest `j <= i` where the map-file suffix starts, or -1 if there is none.
pub open spec fn rfind_suffix_from(s: Seq<char>, i: int) -> int
    decreases (if i < 0 {
        0int
    } else {
        i + 1
    }),
{
    if i < 0 {
        -1
    } else if suffix_at(s, i) {
        i
    } else {
        rfind_suffix_from(s, i - 1)
    }
}

/// Start of the last occurrence of the map-file suffix in `s`, or -1.
pub open spec fn rfind_suffix(s: Seq<char>) -> int {
    rfind_suffix_from(s, s.len() - 7)
}

/// Whether `s` holds the map-file suffix at all.
pub open spec fn has_suffix(s: Seq<char>) -> bool {
    rfind_suffix(s) >= 0
}

/// `rfind_suffix_from` is pinned down by its characteristic properties.
pub proof fn lemma_rfind_from_unique(s: Seq<char>, top: int, i: int)
    requires
        -1 <= i,
        i >= 0 ==> i <= top && suffix_at(s, i),
        forall|j: int| i < j <= top ==> !suffix_at(s, j),
    ensures
        rfind_suffix_from(s, top) == i,
    decreases (if top < 0 {
        0int
    } else {
        top + 1
    }),
{
    if top < 0 {
    } else if top == i {
    } else {
        assert(!suffix_at(s, top));
        lemma_rfind_from_unique(s, top - 1, i);
    }
}

impl MazeMap {
    /// Builds a map from a file name and the file's text.
    ///
    /// The rows are the lines of `data`; the display name is `key` with
    /// everything from the last occurrence of the map-file suffix stripped.
    /// Fails exactly when `key` does not hold the suffix.
    pub fn new(key: &str, data: &str) -> (res: Result<MazeMap, NameError>)
        ensures
            match res {
                Ok(m) => has_suffix(key@) && m.key@ == key@.take(rfind_suffix(key@))
                    && m.data.deep_view() == spec_lines(data@),
                Err(_) => !has_suffix(key@),
            },
    {
        let rows = split_lines(data);
        let n = key.unicode_len();
        if n < 7 {
            proof {
                lemma_rfind_from_unique(key@, key@.len() - 7, -1);
            }
            return Err(NameError);
        }
        let mut best: usize = 0;
        let mut found = false;
        let mut i: usize = 0;
        while i <= n - 7
            invariant
                n == key@.len(),
                7 <= n,
                i <= n - 6,
                found ==> best <= n - 7 && suffix_at(key@, best as int) && (forall|j: int|
                    best < j < i ==> !suffix_at(key@, j)),
                !found ==> forall|j: int| 0 <= j < i ==> !suffix_at(key@, j),
            decreases n - i,
        {
            if key.get_char(i) == '.' && key.get_char(i + 1) == 'l' && key.get_char(i + 2) == 'a'
                && key.get_char(i + 3) == 'b' && key.get_char(i + 4) == 'm' && key.get_char(i + 5)
                == 'a' && key.get_char(i + 6) == 'p' {
                best = i;
                found = true;
            } else {
                proof {
                    assert(!suffix_at(key@, i as int));
                }
            }
            i += 1;
        }
        if found {
            proof {
                lemma_rfind_from_unique(key@, key@.len() - 7, best as int);
            }
            let name = key.substring_char(0, best).to_owned();
            proof {
                assert(name@ =~= key@.take(best as int));
            }
            Ok(MazeMap { key: name, data: rows })
        } else {
            proof {
                lemma_rfind_from_unique(key@, key@.len() - 7, -1);
            }
            Err(NameError)
        }
    }
}

/// The view of the built-in fallback maze's text.
pub open spec fn default_map_text() -> Seq<char> {
    "2222222222222222222222222222222\n2133333333222223333332222223332\n2232222223332223232232322223232\n2233333223232223232232322223232\n2232323223232223232232322222232\n2232323223333333232233333333232\n2232323222222222232222222222232\n2232323333333332233333333332232\n2232222222222232222222222232232\n2232333333322233333322332232232\n2232322232322222232322232232232\n2232322232333332232322232232232\n2232322232222232232322233332232\n2232322233332232232322232232232\n2232322222222232232322232232232\n2232333333333232232322232232232\n2232222222222232232322232232232\n2233333332222232232322232232232\n2222222232222232232322232232232\n2333333333333332232222232233334\n2222222222222222222222222222222"@
}

/// The text of the built-in fallback maze.
pub fn default_map_str() -> (s: &'static str)
    ensures
        s@ == default_map_text(),
{
    "2222222222222222222222222222222\n2133333333222223333332222223332\n2232222223332223232232322223232\n2233333223232223232232322223232\n2232323223232223232232322222232\n2232323223333333232233333333232\n2232323222222222232222222222232\n2232323333333332233333333332232\n2232222222222232222222222232232\n2232333333322233333322332232232\n2232322232322222232322232232232\n2232322232333332232322232232232\n2232322232222232232322233332232\n2232322233332232232322232232232\n2232322222222232232322232232232\n2232333333333232232322232232232\n2232222222222232232322232232232\n2233333332222232232322232232232\n2222222232222232232322232232232\n2333333333333332232222232233334\n2222222222222222222222222222222"
}

impl Default for MazeMap {
    /// The built-in fallback maze under the name `Default`.
    fn default() -> (res: MazeMap)
        ensures
            res.key@ == "Default"@,
            res.data.deep_view() == spec_lines(default_map_text()),
    {
        let text = default_map_str();
        proof {
            reveal_strlit("Default.labmap");
            reveal_strlit("Default");
            assert(suffix_at("Default.labmap"@, 7));
            lemma_rfind_from_unique("Default.labmap"@, "Default.labmap"@.len() - 7, 7);
        }
        match MazeMap::new("Default.labmap", text) {
            Ok(m) => {
                proof {
                    assert(m.key@ =~= "Default"@);
                }
                m
            },
            Err(_) => unreached(),
        }
    }
}

/// Element-wise equality of two row vectors.
fn rows_eq(a: &Vec<String>, b: &Vec<String>) -> (r: bool)
    ensures
        r == (a.deep_view() == b.deep_view()),
{
    if a.len() != b.len() {
        proof {
            assert(a.deep_view().len() == a@.len());
            assert(b.deep_view().len() == b@.len());
        }
        return false;
    }
    let mut i: usize = 0;
    while i < a.len()
        invariant
            a@.len() == b@.len(),
            i <= a@.len(),
            forall|j: int| 0 <= j < i ==> a.deep_view()[j] == b.deep_view()[j],
        decreases a.len() - i,
    {
        if !(a[i] == b[i]) {
            assert(a.deep_view()[i as int] != b.deep_view()[i as int]);
            return false;
        }
        i += 1;
    }
    proof {
        assert(a.deep_view() =~= b.deep_view());
    }
    true
}

impl PartialEq for MazeMap {
    fn eq(&self, other: &MazeMap) -> (r: bool) {
        let keys_eq = self.key == other.key;
        keys_eq && rows_eq(&self.data, &other.data)
    }
}

impl vstd::std_specs::cmp::PartialEqSpecImpl for MazeMap {
    open spec fn obeys_eq_spec() -> bool {
        true
    }

    open spec fn eq_spec(&self, other: &MazeMap) -> bool {
        map_eqv(self, other)
    }
}

impl Clone for MazeMap {
    /// The clone carries the same name and grid content.
    fn clone(&self) -> (res: MazeMap)
        ensures
            map_eqv(&res, self),
    {
        let data = self.data.clone();
        proof {
            assert(data@ =~= self.data@);
        }
        MazeMap { key: self.key.clone(), data }
    }
}

} // verus!
