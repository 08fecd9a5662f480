use vstd::prelude::*;

use crate::error::UrlError;
use crate::parser::{first_piece, last_segment, parse_name, recased, result_view};
use crate::utils::{join_path, push_path, to_title_case};

verus! {

/// The directory in which the episodes of `url` are stored, given the directories of the
/// command line: with `auto_dir`, the last directory joined with the anime name in Title Case;
/// else the directory at `pos`, or the last one where there are fewer.
pub fn get_path(dirs: &[String], auto_dir: bool, url: &str, pos: usize) -> (r: Result<String, UrlError>)
    requires
        dirs.len() > 0,
    ensures
        auto_dir ==> result_view(r) == match last_segment(url@) {
            Ok(seg) => Ok(join_path(dirs@.last()@, recased(first_piece(seg), ' '))),
            Err(e) => Err(e),
        },
        !auto_dir ==> result_view(r) == Ok::<Seq<char>, UrlError>(
            if pos < dirs.len() { dirs@[pos as int]@ } else { dirs@.last()@ },
        ),
{
    let root = &dirs[dirs.len() - 1];
    if auto_dir {
        match parse_name(url) {
            Ok(name) => {
                let sub = to_title_case(name.as_str());
                Ok(push_path(root.as_str(), sub.as_str()))
            },
            Err(e) => Err(e),
        }
    } else if pos < dirs.len() {
        Ok(dirs[pos].clone())
    } else {
        Ok(root.clone())
    }
}

} // verus!
