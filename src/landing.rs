//! Which document the index page shows.
use vstd::prelude::*;
use vstd::string::*;
use crate::store::texts;

verus! {

/// The name of the document shown first when it exists.
pub open spec fn readme() -> Seq<char> {
    seq!['R', 'E', 'A', 'D', 'M', 'E', '.', 'm', 'd']
}

/// The path the index page leads to: the readme when listed, else the first
/// listed path, else none.
pub open spec fn landing(files: Seq<Seq<char>>) -> Option<Seq<char>> {
    if files.contains(readme()) {
        Some(readme())
    } else if files.len() > 0 {
        Some(files[0])
    } else {
        None
    }
}

/// The path the index page redirects to, or `None` for the empty page.
pub fn landing_path(files: &Vec<String>) -> (r: Option<String>)
    ensures
        r matches Some(p) ==> landing(texts(files@)) == Some(p@),
        r is None ==> landing(texts(files@)) is None,
{
    proof {
        reveal_strlit("README.md");
        assert("README.md"@ =~= readme());
    }
    let target = String::from_str("README.md");
    let mut i: usize = 0;
    while i < files.len()
        invariant
            target@ == readme(),
            i <= files.len(),
            forall|j: int| 0 <= j < i ==> #[trigger] texts(files@)[j] != readme(),
        decreases files.len() - i,
    {
        if files[i] == target {
            assert(texts(files@)[i as int] == readme());
            return Some(target);
        }
        i += 1;
    }
    if files.len() > 0 {
        Some(files[0].clone())
    } else {
        None
    }
}

} // verus!
