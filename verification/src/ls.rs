//! The directory-listing renderer.
//!
//! The filesystem enumeration itself is an external collaborator: it
//! yields entries in an unspecified, OS-defined order, and fetching an
//! entry's metadata can fail.  The functions here take what that
//! collaborator yielded as plain values and decide, entry by entry, what
//! line to emit or which failure ends the whole listing.  Every failure
//! is fatal: the listing never skips a bad entry and never reorders the
//! lines it emits.

use vstd::prelude::*;

verus! {

use crate::metadata::{parse_permissions, symbolic_string, ModeError};
use crate::text::views_of;
use vstd::string::StringExecFns;

/// The ways a listing run can fail.  Each failure carries its own exit
/// status, and the four statuses are pairwise distinct, so scripts can
/// tell them apart.
#[derive(Clone, Copy, PartialEq, Eq, Structural, Debug)]
pub enum ListError {
    /// The path could not be opened for enumeration.
    DirectoryOpenFailure,
    /// The enumeration yielded a read failure for some position.
    EntryReadFailure,
    /// An entry's metadata record could not be retrieved.
    MetadataFailure,
    /// An entry's raw mode could not be decoded.
    PermissionDecodeFailure,
}

/// The exit status associated with each failure.
pub open spec fn exit_status_spec(e: ListError) -> i32 {
    match e {
        ListError::DirectoryOpenFailure => 1i32,
        ListError::EntryReadFailure => -1i32,
        ListError::MetadataFailure => -2i32,
        ListError::PermissionDecodeFailure => -3i32,
    }
}

impl ListError {
    /// The process exit status this failure terminates with.
    pub fn exit_status(&self) -> (s: i32)
        ensures
            s == exit_status_spec(*self),
    {
        match self {
            ListError::DirectoryOpenFailure => 1,
            ListError::EntryReadFailure => -1,
            ListError::MetadataFailure => -2,
            ListError::PermissionDecodeFailure => -3,
        }
    }
}

/// Distinct failures exit with distinct statuses.
pub proof fn lemma_exit_statuses_distinct(a: ListError, b: ListError)
    ensures
        a != b ==> exit_status_spec(a) != exit_status_spec(b),
{
}

/// One entry as the enumeration collaborator yielded it: its name, and
/// the raw mode from its metadata record, or `None` where fetching the
/// record failed.
pub struct DirEntryInfo {
    pub name: String,
    pub mode: Option<u32>,
}

/// A long-format line: the symbolic permission string, a tab, the name.
pub open spec fn long_line(sym: Seq<char>, name: Seq<char>) -> Seq<char> {
    sym + seq!['\t'] + name
}

/// What listing one entry produces: its output line, or the failure that
/// aborts the run.
pub open spec fn list_entry_spec(
    long_format: bool,
    name: Seq<char>,
    mode: Option<u32>,
    platform_supported: bool,
) -> Result<Seq<char>, ListError> {
    if !long_format {
        Ok(name)
    } else {
        match mode {
            Option::None => Err(ListError::MetadataFailure),
            Option::Some(m) => if platform_supported {
                Ok(long_line(symbolic_string(m as nat), name))
            } else {
                Err(ListError::PermissionDecodeFailure)
            },
        }
    }
}

/// Renders the line for one directory entry.
///
/// Without long format the line is the entry name itself.  With long
/// format, a missing metadata record is fatal, a mode that cannot be
/// decoded is fatal, and otherwise the line is the symbolic permission
/// string, a tab, and the name.
pub fn list_entry(long_format: bool, name: &str, mode: Option<u32>, platform_supported: bool) -> (r:
    Result<String, ListError>)
    ensures
        (list_entry_spec(long_format, name@, mode, platform_supported) matches Ok(l) ==> (
        r matches Ok(s) && s@ == l)),
        (list_entry_spec(long_format, name@, mode, platform_supported) matches Err(e) ==> r == Err::<
            String,
            ListError,
        >(e)),
{
    if !long_format {
        return Ok(name.to_owned());
    }
    match mode {
        Option::None => Err(ListError::MetadataFailure),
        Option::Some(m) => {
            match parse_permissions(m, platform_supported) {
                Err(_) => Err(ListError::PermissionDecodeFailure),
                Ok(sym) => {
                    let mut line = sym;
                    line.append("\t");
                    line.append(name);
                    proof {
                        reveal_strlit("\t");
                        assert(line@ =~= long_line(symbolic_string(m as nat), name@));
                    }
                    Ok(line)
                },
            }
        },
    }
}

/// What a whole listing produces: the lines for the yielded entries, in
/// the yielded order, or the first failure.
pub open spec fn render_listing_spec(
    entries: Seq<DirEntryInfo>,
    long_format: bool,
    platform_supported: bool,
) -> Result<Seq<Seq<char>>, ListError>
    decreases entries.len(),
{
    if entries.len() == 0 {
        Ok(Seq::empty())
    } else {
        match list_entry_spec(long_format, entries[0].name@, entries[0].mode, platform_supported) {
            Err(e) => Err(e),
            Ok(line) => match render_listing_spec(
                entries.drop_first(),
                long_format,
                platform_supported,
            ) {
                Err(e) => Err(e),
                Ok(rest) => Ok(seq![line] + rest),
            },
        }
    }
}

/// Renders a whole listing: one line per yielded entry, in exactly the
/// order the enumeration collaborator yielded them — the entries are
/// never sorted — stopping at the first failing entry.
pub fn render_listing(entries: &Vec<DirEntryInfo>, long_format: bool, platform_supported: bool) -> (r:
    Result<Vec<String>, ListError>)
    ensures
        (render_listing_spec(entries@, long_format, platform_supported) matches Ok(lines) ==> (
        r matches Ok(v) && views_of(v@) == lines)),
        (render_listing_spec(entries@, long_format, platform_supported) matches Err(e) ==> r
            == Err::<Vec<String>, ListError>(e)),
{
    let mut out: Vec<String> = Vec::new();
    let mut i: usize = 0;
    proof {
        assert(views_of(out@) =~= Seq::<Seq<char>>::empty());
        assert(entries@.skip(0) =~= entries@);
        if render_listing_spec(entries@, long_format, platform_supported) is Ok {
            assert(views_of(out@) + render_listing_spec(
                entries@,
                long_format,
                platform_supported,
            )->Ok_0 =~= render_listing_spec(entries@, long_format, platform_supported)->Ok_0);
        }
    }
    while i < entries.len()
        invariant
            0 <= i <= entries@.len(),
            views_of(out@).len() == i,
            match render_listing_spec(entries@.skip(i as int), long_format, platform_supported) {
                Ok(rest) => render_listing_spec(entries@, long_format, platform_supported) == Ok::<
                    Seq<Seq<char>>,
                    ListError,
                >(views_of(out@) + rest),
                Err(e) => render_listing_spec(entries@, long_format, platform_supported) == Err::<
                    Seq<Seq<char>>,
                    ListError,
                >(e),
            },
        decreases entries@.len() - i,
    {
        let entry = &entries[i];
        proof {
            assert(entries@.skip(i as int)[0] == entries@[i as int]);
            assert(entries@.skip(i as int).drop_first() =~= entries@.skip(i as int + 1));
        }
        match list_entry(long_format, entry.name.as_str(), entry.mode, platform_supported) {
            Err(e) => {
                return Err(e);
            },
            Ok(line) => {
                let ghost prev_out = out@;
                out.push(line);
                proof {
                    assert(views_of(out@) =~= views_of(prev_out).push(line@));
                    match render_listing_spec(
                        entries@.skip(i as int + 1),
                        long_format,
                        platform_supported,
                    ) {
                        Ok(rest) => {
                            assert(render_listing_spec(
                                entries@.skip(i as int),
                                long_format,
                                platform_supported,
                            ) == Ok::<Seq<Seq<char>>, ListError>(seq![line@] + rest));
                            assert(views_of(prev_out) + (seq![line@] + rest) =~= views_of(out@)
                                + rest);
                        },
                        Err(_) => {
                            assert(render_listing_spec(
                                entries@.skip(i as int),
                                long_format,
                                platform_supported,
                            ) == render_listing_spec(
                                entries@.skip(i as int + 1),
                                long_format,
                                platform_supported,
                            ));
                        },
                    }
                }
                i = i + 1;
            },
        }
    }
    proof {
        assert(entries@.skip(i as int) =~= Seq::<DirEntryInfo>::empty());
        assert(views_of(out@) + Seq::<Seq<char>>::empty() =~= views_of(out@));
    }
    Ok(out)
}

} // verus!
