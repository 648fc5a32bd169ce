//! Where the source of a module is found.

use crate::ast::path_view;
use crate::ast::Name;
use crate::ast::NameView;
use vstd::prelude::*;
use vstd::string::StringExecFns;

verus! {

/// The components `parts`, each separated from the next by `/`.
pub open spec fn joined(parts: Seq<Seq<char>>) -> Seq<char>
    decreases parts.len(),
{
    if parts.len() == 0 {
        Seq::empty()
    } else if parts.len() == 1 {
        parts[0]
    } else {
        joined(parts.drop_last()) + seq!['/'] + parts.last()
    }
}

/// The path of the file that holds the module `name`, relative to the root
/// of the sources: the components of the name as directories, the last as
/// the file, with the extension `hb`. Only a global with at least one
/// component names a module.
pub open spec fn source_path(name: NameView) -> Option<Seq<char>> {
    match name {
        NameView::Qual { components } => if components.len() > 0 {
            Some(joined(components) + seq!['.', 'h', 'b'])
        } else {
            None
        },
        _ => None,
    }
}

/// The path of the file that holds the module `name`, relative to the root
/// of the sources, with `/` between its components; `None` where `name`
/// names no module.
pub fn name_to_path(name: &Name) -> (r: Option<String>)
    ensures
        match r {
            Some(path) => source_path(name@) == Some(path@),
            None => source_path(name@) is None,
        },
{
    match name {
        Name::Qual { components, .. } => {
            if components.len() == 0 {
                return None;
            }
            let ghost parts = path_view(components@);
            let mut path = components[0].clone();
            assert(joined(parts.take(1)) == parts[0]);
            let mut i: usize = 1;
            while i < components.len()
                invariant
                    1 <= i <= components.len(),
                    parts == path_view(components@),
                    path@ == joined(parts.take(i as int)),
                decreases components.len() - i,
            {
                proof {
                    reveal_strlit("/");
                    assert(parts.take(i + 1).drop_last() =~= parts.take(i as int));
                    assert("/"@ =~= seq!['/']);
                }
                path.append("/");
                path.append(components[i].as_str());
                i = i + 1;
            }
            proof {
                reveal_strlit(".hb");
                assert(parts.take(i as int) =~= parts);
                assert(".hb"@ =~= seq!['.', 'h', 'b']);
            }
            path.append(".hb");
            Some(path)
        },
        _ => None,
    }
}

} // verus!
