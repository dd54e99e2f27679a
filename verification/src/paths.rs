//! Path arithmetic of the file store: where a profile's downloads live, the
//! final and part file of a job, the database file, and the parsing of the
//! user's directory override. All paths are built with `/` separators from a
//! base directory the caller resolves.

use vstd::prelude::*;
use vstd::string::StrSliceExecFns;
use vstd::string::StringExecFns;

verus! {

/// The downloads directory of a profile: `<base>/downloads/<profile_id>`.
pub open spec fn spec_downloads_dir(base: Seq<char>, profile_id: Seq<char>) -> Seq<char> {
    base + "/downloads/"@ + profile_id
}

/// Builds `<base>/downloads/<profile_id>`.
pub fn downloads_dir(base: &str, profile_id: &str) -> (r: String)
    ensures
        r@ == spec_downloads_dir(base@, profile_id@),
{
    let r = base.to_owned().concat("/downloads/").concat(profile_id);
    proof {
        assert(r@ =~= spec_downloads_dir(base@, profile_id@));
    }
    r
}

/// The job database file: `<base>/downloads.db`.
pub open spec fn spec_db_path(base: Seq<char>) -> Seq<char> {
    base + "/downloads.db"@
}

/// Builds `<base>/downloads.db`.
pub fn db_path(base: &str) -> (r: String)
    ensures
        r@ == spec_db_path(base@),
{
    base.to_owned().concat("/downloads.db")
}

/// The final artifact of a job: `<base>/downloads/<profile_id>/<id>.mp4`.
pub open spec fn spec_download_file_path(
    base: Seq<char>,
    profile_id: Seq<char>,
    id: Seq<char>,
) -> Seq<char> {
    spec_downloads_dir(base, profile_id) + "/"@ + id + ".mp4"@
}

/// Builds the final artifact path of a job.
pub fn download_file_path(base: &str, profile_id: &str, id: &str) -> (r: String)
    ensures
        r@ == spec_download_file_path(base@, profile_id@, id@),
{
    let r = downloads_dir(base, profile_id).concat("/").concat(id).concat(".mp4");
    proof {
        assert(r@ =~= spec_download_file_path(base@, profile_id@, id@));
    }
    r
}

/// The in-progress artifact of a job:
/// `<base>/downloads/<profile_id>/<id>.zentrio-part`.
pub open spec fn spec_part_file_path(
    base: Seq<char>,
    profile_id: Seq<char>,
    id: Seq<char>,
) -> Seq<char> {
    spec_downloads_dir(base, profile_id) + "/"@ + id + ".zentrio-part"@
}

/// Builds the part-file path of a job.
pub fn part_file_path(base: &str, profile_id: &str, id: &str) -> (r: String)
    ensures
        r@ == spec_part_file_path(base@, profile_id@, id@),
{
    let r = downloads_dir(base, profile_id).concat("/").concat(id).concat(".zentrio-part");
    proof {
        assert(r@ =~= spec_part_file_path(base@, profile_id@, id@));
    }
    r
}

/// ASCII whitespace, as the directory-override file is trimmed by.
pub open spec fn spec_is_space(c: char) -> bool {
    c == ' ' || c == '\t' || c == '\n' || c == '\r'
}

/// The string with leading ASCII whitespace removed.
pub open spec fn spec_trim_start(s: Seq<char>) -> Seq<char>
    decreases s.len(),
{
    if s.len() > 0 && spec_is_space(s[0]) {
        spec_trim_start(s.drop_first())
    } else {
        s
    }
}

/// The string with trailing ASCII whitespace removed.
pub open spec fn spec_trim_end(s: Seq<char>) -> Seq<char>
    decreases s.len(),
{
    if s.len() > 0 && spec_is_space(s.last()) {
        spec_trim_end(s.drop_last())
    } else {
        s
    }
}

/// The contents of the directory-override file with ASCII whitespace trimmed
/// from both ends.
pub open spec fn spec_trimmed(s: Seq<char>) -> Seq<char> {
    spec_trim_end(spec_trim_start(s))
}

/// Reads the user's directory override out of the contents of
/// `download_dir.txt`: the contents trimmed of surrounding whitespace, or
/// nothing when only whitespace is left.
pub fn custom_dir_override(contents: &str) -> (r: Option<String>)
    ensures
        match r {
            Some(dir) => dir@ == spec_trimmed(contents@) && dir@.len() > 0,
            None => spec_trimmed(contents@).len() == 0,
        },
{
    let n = contents.unicode_len();
    proof {
        assert(contents@.subrange(0, n as int) =~= contents@);
    }
    let mut a: usize = 0;
    while a < n && is_space(contents.get_char(a))
        invariant
            n == contents@.len(),
            a <= n,
            spec_trim_start(contents@.subrange(a as int, n as int)) == spec_trim_start(contents@),
        decreases n - a,
    {
        proof {
            let suffix = contents@.subrange(a as int, n as int);
            assert(suffix[0] == contents@[a as int]);
            assert(suffix.drop_first() =~= contents@.subrange(a as int + 1, n as int));
        }
        a += 1;
    }
    proof {
        let suffix = contents@.subrange(a as int, n as int);
        if a < n {
            assert(suffix[0] == contents@[a as int]);
        }
        assert(spec_trim_start(suffix) == suffix);
        assert(contents@.subrange(0, n as int) =~= contents@);
    }
    if a == n {
        return None;
    }
    let mut b: usize = n;
    while b > a && is_space(contents.get_char(b - 1))
        invariant
            n == contents@.len(),
            a < n,
            !spec_is_space(contents@[a as int]),
            a <= b <= n,
            spec_trim_end(contents@.subrange(a as int, b as int)) == spec_trim_end(
                contents@.subrange(a as int, n as int),
            ),
        decreases b,
    {
        proof {
            let cur = contents@.subrange(a as int, b as int);
            assert(cur.last() == contents@[b - 1]);
            assert(cur.drop_last() =~= contents@.subrange(a as int, b as int - 1));
        }
        b -= 1;
    }
    proof {
        let cur = contents@.subrange(a as int, b as int);
        if b > a {
            assert(cur.last() == contents@[b - 1]);
        }
        assert(spec_trim_end(cur) == cur);
        assert(b > a) by {
            if b == a {
                assert(spec_trim_end(contents@.subrange(a as int, n as int)).len() == 0);
                lemma_trim_end_keeps_head(contents@.subrange(a as int, n as int));
            }
        }
    }
    let dir = contents.substring_char(a, b).to_owned();
    Some(dir)
}

/// Trimming the end of a string whose head is no whitespace leaves a
/// non-empty string with the same head.
proof fn lemma_trim_end_keeps_head(s: Seq<char>)
    requires
        s.len() > 0,
        !spec_is_space(s[0]),
    ensures
        spec_trim_end(s).len() > 0,
        spec_trim_end(s)[0] == s[0],
    decreases s.len(),
{
    if s.len() > 0 && spec_is_space(s.last()) {
        assert(s.drop_last()[0] == s[0]);
        assert(s.drop_last().len() > 0) by {
            if s.len() == 1 {
                assert(s.last() == s[0]);
            }
        }
        lemma_trim_end_keeps_head(s.drop_last());
    }
}

fn is_space(c: char) -> (r: bool)
    ensures
        r == spec_is_space(c),
{
    c == ' ' || c == '\t' || c == '\n' || c == '\r'
}

} // verus!
