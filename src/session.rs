//! The working directory of one conversion session.
use vstd::prelude::*;
use vstd::string::StrSliceExecFns;

use crate::text::push_char;

verus! {

/// `s` without the `'/'` characters that end it.
pub open spec fn trim_trailing_slashes(s: Seq<char>) -> Seq<char>
    decreases s.len(),
{
    if s.len() > 0 && s.last() == '/' {
        trim_trailing_slashes(s.drop_last())
    } else {
        s
    }
}

/// The working directory of session `id` under the temporary directory `temp`:
/// `<temp>/vidascii_tmp/<id>`, with no doubled slash when `temp` ends in one.
pub open spec fn session_dir(temp: Seq<char>, id: Seq<char>) -> Seq<char> {
    trim_trailing_slashes(temp) + "/vidascii_tmp/"@ + id
}

/// A lowercase hexadecimal digit or a hyphen.
pub open spec fn is_uuid_char(c: char) -> bool {
    ('0' <= c && c <= '9') || ('a' <= c && c <= 'f') || c == '-'
}

/// Relies on `uuid::Uuid::new_v4` and its `Display`, the lowercase hyphenated
/// form: 36 characters, hexadecimal digits and hyphens. The value is random.
#[verifier::external_body]
fn new_session_id() -> (r: String)
    ensures
        r@.len() == 36,
        forall|i: int| 0 <= i < 36 ==> is_uuid_char(#[trigger] r@[i]),
{
    uuid::Uuid::new_v4().to_string()
}

/// Appends the first `n` characters of `s`.
fn push_prefix(out: &mut String, s: &str, n: usize)
    requires
        n <= s@.len(),
    ensures
        final(out)@ == old(out)@ + s@.subrange(0, n as int),
{
    let mut i: usize = 0;
    while i < n
        invariant
            i <= n <= s@.len(),
            out@ == old(out)@ + s@.subrange(0, i as int),
        decreases n - i,
    {
        push_char(out, s.get_char(i));
        proof {
            assert(s@.subrange(0, i as int + 1) =~= s@.subrange(0, i as int).push(s@[i as int]));
            assert(old(out)@ + s@.subrange(0, i as int + 1) =~= (old(out)@ + s@.subrange(
                0,
                i as int,
            )).push(s@[i as int]));
        }
        i = i + 1;
    }
}

/// The path of session `session_id`'s working directory under `temp_dir`.
pub fn work_dir_path(temp_dir: &str, session_id: &str) -> (r: String)
    ensures
        r@ == session_dir(temp_dir@, session_id@),
{
    let mut end = temp_dir.unicode_len();
    assert(temp_dir@.subrange(0, end as int) =~= temp_dir@);
    while end > 0 && temp_dir.get_char(end - 1) == '/'
        invariant
            end <= temp_dir@.len(),
            trim_trailing_slashes(temp_dir@.subrange(0, end as int)) == trim_trailing_slashes(
                temp_dir@,
            ),
        decreases end,
    {
        proof {
            assert(temp_dir@.subrange(0, end as int).drop_last() =~= temp_dir@.subrange(
                0,
                end as int - 1,
            ));
        }
        end = end - 1;
    }
    proof {
        let kept = temp_dir@.subrange(0, end as int);
        if end > 0 {
            assert(kept.last() == temp_dir@[end - 1]);
        }
        assert(trim_trailing_slashes(kept) == kept);
    }
    let infix = "/vidascii_tmp/";
    proof {
        reveal_strlit("/vidascii_tmp/");
    }
    let mut path = String::new();
    push_prefix(&mut path, temp_dir, end);
    push_prefix(&mut path, infix, infix.unicode_len());
    push_prefix(&mut path, session_id, session_id.unicode_len());
    proof {
        assert(infix@.subrange(0, infix@.len() as int) =~= infix@);
        assert(session_id@.subrange(0, session_id@.len() as int) =~= session_id@);
        assert(path@ =~= session_dir(temp_dir@, session_id@));
    }
    path
}

/// The path of a fresh session's working directory under `temp_dir`: a
/// random identifier of 36 hexadecimal digits and hyphens, so the directory
/// sits directly in `<temp_dir>/vidascii_tmp`.
pub fn new_work_dir_path(temp_dir: &str) -> (r: String)
    ensures
        exists|id: Seq<char>|
            id.len() == 36 && (forall|i: int| 0 <= i < 36 ==> is_uuid_char(#[trigger] id[i]))
                && r@ == session_dir(temp_dir@, id),
{
    let id = new_session_id();
    let path = work_dir_path(temp_dir, id.as_str());
    proof {
        assert(id@.len() == 36 && (forall|i: int| 0 <= i < 36 ==> is_uuid_char(#[trigger] id@[i]))
            && path@ == session_dir(temp_dir@, id@));
    }
    path
}

} // verus!
