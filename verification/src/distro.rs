//! The files of a TeX distribution, read from its listing.
//!
//! The listing names the files directory by directory: a line that ends in a
//! colon names a directory, relative to the root of the distribution, and the
//! lines that follow name what is in it. Empty lines and lines that start
//! with a percent sign say nothing.

use crate::bytes::{copy_range, extend_range, find_byte, find_first, lemma_find_first};
use crate::document::SLASH;
use crate::project::join;
use crate::syntax::PERCENT;
use crate::text::NEWLINE;
use crate::uri::COLON;
use crate::workspace::files_of;
use vstd::prelude::*;

verus! {

/// The byte before a newline that belongs to the end of the line.
pub const CARRIAGE_RETURN: u8 = 13u8;

/// The byte that stands for the directory itself.
pub const DOT: u8 = 46u8;

/// Where the line that starts at `i` stops: at its newline, or at the end of
/// the text.
pub open spec fn line_stop(text: Seq<u8>, i: int) -> int {
    find_first(text, i, text.len() as int, NEWLINE)
}

/// Where the content of the line ends that starts at `i`: before a carriage
/// return that ends it.
pub open spec fn line_content_end(text: Seq<u8>, i: int) -> int {
    let stop = line_stop(text, i);
    if stop > i && text[stop - 1] == CARRIAGE_RETURN {
        stop - 1
    } else {
        stop
    }
}

/// A directory of the listing without the `./` that it starts with; the
/// directory `.` is the root itself.
pub open spec fn relative(path: Seq<u8>) -> Seq<u8> {
    if path.len() >= 2 && path[0] == DOT && path[1] == SLASH {
        path.subrange(2, path.len() as int)
    } else if path.len() == 1 && path[0] == DOT {
        Seq::empty()
    } else {
        path
    }
}

/// The files that the listing names from index `i` on, the lines before
/// having named `directory`: each file name with its location.
pub open spec fn listing_from(text: Seq<u8>, i: int, root: Seq<u8>, directory: Seq<u8>) -> Seq<
    (Seq<u8>, Seq<u8>),
>
    decreases text.len() - i,
{
    if i < 0 || i >= text.len() {
        Seq::empty()
    } else {
        let stop = line_stop(text, i);
        let line = text.subrange(i, line_content_end(text, i));
        let here = if line.len() == 0 || line[0] == PERCENT || line[line.len() - 1] == COLON {
            Seq::<(Seq<u8>, Seq<u8>)>::empty()
        } else {
            seq![(line, join(directory, line))]
        };
        let next = if line.len() > 0 && line[0] != PERCENT && line[line.len() - 1] == COLON {
            join(root, relative(line.drop_last()))
        } else {
            directory
        };
        if i <= stop < text.len() {
            here + listing_from(text, stop + 1, root, next)
        } else {
            here
        }
    }
}

/// The files that a listing names, seen from the root of the distribution.
pub open spec fn listing(root: Seq<u8>, text: Seq<u8>) -> Seq<(Seq<u8>, Seq<u8>)> {
    listing_from(text, 0, root, root)
}

/// `name` within `directory`.
fn joined(directory: &[u8], name: &[u8]) -> (path: Vec<u8>)
    ensures
        path@ == join(directory@, name@),
{
    let mut path = copy_range(directory, 0, directory.len());
    assert(directory@.subrange(0, directory@.len() as int) =~= directory@);
    if directory.len() > 0 && directory[directory.len() - 1] != SLASH {
        path.push(SLASH);
    }
    extend_range(&mut path, name, 0, name.len());
    assert(name@.subrange(0, name@.len() as int) =~= name@);
    path
}

/// Reads the listing of a distribution: each file name with its location
/// under `root`, in the order of the listing.
pub fn parse_listing(root: &[u8], text: &[u8]) -> (files: Vec<(Vec<u8>, Vec<u8>)>)
    ensures
        files_of(files@) == listing(root@, text@),
{
    let mut files: Vec<(Vec<u8>, Vec<u8>)> = Vec::new();
    let mut directory: Vec<u8> = copy_range(root, 0, root.len());
    assert(root@.subrange(0, root@.len() as int) =~= root@);
    assert(files_of(files@) =~= Seq::<(Seq<u8>, Seq<u8>)>::empty());
    let mut i: usize = 0;
    while i < text.len()
        invariant
            0 <= i <= text.len(),
            files_of(files@) + listing_from(text@, i as int, root@, directory@) == listing(
                root@,
                text@,
            ),
        decreases text.len() - i,
    {
        let stop = find_byte(text, i, text.len(), NEWLINE);
        let end = if stop > i && text[stop - 1] == CARRIAGE_RETURN {
            stop - 1
        } else {
            stop
        };
        let ghost before = files_of(files@);
        let ghost line = text@.subrange(i as int, end as int);
        let ghost held = directory@;
        assert(end - i == line.len());
        if end > i {
            assert(line[0] == text@[i as int]);
            assert(line[line.len() - 1] == text@[end - 1]);
        }
        if end == i || text[i] == PERCENT {
        } else if text[end - 1] == COLON {
            let from = if end - 1 - i >= 2 && text[i] == DOT && text[i + 1] == SLASH {
                i + 2
            } else if end - 1 - i == 1 && text[i] == DOT {
                i + 1
            } else {
                i
            };
            let name = copy_range(text, from, end - 1);
            assert(name@ =~= relative(line.drop_last())) by {
                let path = line.drop_last();
                assert(path =~= text@.subrange(i as int, end - 1));
                if path.len() >= 1 {
                    assert(path[0] == text@[i as int]);
                }
                if path.len() >= 2 {
                    assert(path[1] == text@[i + 1]);
                }
            }
            directory = joined(root, name.as_slice());
        } else {
            let name = copy_range(text, i, end);
            let location = joined(directory.as_slice(), name.as_slice());
            files.push((name, location));
            assert(files_of(files@) =~= before.push((line, join(held, line))));
        }
        let ghost here = if line.len() == 0 || line[0] == PERCENT || line[line.len() - 1] == COLON {
            Seq::<(Seq<u8>, Seq<u8>)>::empty()
        } else {
            seq![(line, join(held, line))]
        };
        assert(files_of(files@) =~= before + here);
        if stop < text.len() {
            let ghost rest = listing_from(text@, stop + 1, root@, directory@);
            assert(before + here + rest =~= before + (here + rest));
            i = stop + 1;
        } else {
            i = text.len();
        }
    }
    assert(files_of(files@) + Seq::<(Seq<u8>, Seq<u8>)>::empty() =~= files_of(files@));
    files
}

} // verus!
