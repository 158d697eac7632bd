//! File-system paths as text, with the Unix semantics of `std::path`:
//! joining a component onto a directory and replacing a file's extension.

use vstd::prelude::*;

verus! {

/// `base` joined with `seg` as `Path::join` does it on Unix: an absolute
/// `seg` replaces `base`; otherwise a `'/'` separates the two unless `base`
/// is empty or already ends with one.
pub open spec fn path_join(base: Seq<char>, seg: Seq<char>) -> Seq<char> {
    if seg.len() > 0 && seg[0] == '/' {
        seg
    } else if base.len() == 0 || base.last() == '/' {
        base + seg
    } else {
        base + seq!['/'] + seg
    }
}

/// Index of the last `'.'` of `s`, or `-1` when there is none.
pub open spec fn last_dot(s: Seq<char>) -> int
    decreases s.len(),
{
    if s.len() == 0 {
        -1
    } else if s.last() == '.' {
        s.len() - 1
    } else {
        last_dot(s.drop_last())
    }
}

/// The last dot, when there is one, is a position of `s` that holds a dot.
pub proof fn lemma_last_dot_bounds(s: Seq<char>)
    ensures
        -1 <= last_dot(s) < s.len(),
        last_dot(s) >= 0 ==> s[last_dot(s)] == '.',
    decreases s.len(),
{
    if s.len() > 0 && s.last() != '.' {
        lemma_last_dot_bounds(s.drop_last());
    }
}

/// The file name `name` with its extension replaced by `ext`: the extension
/// is what follows the last `'.'`, unless that dot is the first character of
/// the name. This is what `Path::with_extension` does for a non-empty `ext`
/// and a name that is neither empty nor `".."`; std differs elsewhere (with an
/// empty `ext` it drops the dot, and it leaves a path without a file name
/// unchanged), and those cases never arise here.
pub open spec fn with_extension(name: Seq<char>, ext: Seq<char>) -> Seq<char> {
    let k = last_dot(name);
    if k > 0 {
        name.take(k) + seq!['.'] + ext
    } else {
        name + seq!['.'] + ext
    }
}

/// Joins `seg` onto `base` (see [`path_join`]).
pub fn join_path(base: &str, seg: &str) -> (r: String)
    ensures
        r@ == path_join(base@, seg@),
{
    let seg_len = seg.unicode_len();
    let base_len = base.unicode_len();
    if seg_len > 0 && seg.get_char(0) == '/' {
        return String::from_str(seg);
    }
    let mut r = String::from_str(base);
    if base_len > 0 && base.get_char(base_len - 1) != '/' {
        r.append("/");
        proof {
            reveal_strlit("/");
        }
    }
    r.append(seg);
    r
}

/// Replaces the extension of the file name `name` by `ext` (see
/// [`with_extension`]).
pub fn replace_extension(name: &str, ext: &str) -> (r: String)
    ensures
        r@ == with_extension(name@, ext@),
{
    let n = name.unicode_len();
    let mut i: usize = n;
    assert(name@.take(n as int) =~= name@);
    while i > 0 && name.get_char(i - 1) != '.'
        invariant
            n == name@.len(),
            i <= n,
            last_dot(name@) == last_dot(name@.take(i as int)),
        decreases i,
    {
        proof {
            let t = name@.take(i as int);
            assert(t.drop_last() =~= name@.take(i - 1));
        }
        i = i - 1;
    }
    proof {
        reveal_strlit(".");
        assert(name@.take(n as int) =~= name@);
        if i > 0 {
            assert(last_dot(name@.take(i as int)) == i - 1);
        } else {
            assert(name@.take(0) =~= Seq::<char>::empty());
        }
    }
    let mut r = if i > 1 {
        String::from_str(name.substring_char(0, i - 1))
    } else {
        String::from_str(name)
    };
    r.append(".");
    r.append(ext);
    r
}

/// The application's data directory inside the user's data directory
/// `user_data_dir`, or inside the current directory when there is none.
pub open spec fn app_data_dir_in(user_data_dir: Option<Seq<char>>) -> Seq<char> {
    let base = match user_data_dir {
        Some(d) => d,
        None => "."@,
    };
    path_join(base, "com.mactranscribe.app"@)
}

/// The application's data directory (see [`app_data_dir_in`]).
pub fn app_data_dir(user_data_dir: Option<&str>) -> (dir: String)
    ensures
        dir@ == app_data_dir_in(
            match user_data_dir {
                Some(d) => Some(d@),
                None => None,
            },
        ),
{
    let base = match user_data_dir {
        Some(d) => d,
        None => ".",
    };
    join_path(base, "com.mactranscribe.app")
}

/// The directory for temporary files inside the data directory `data_dir`.
pub fn temp_dir(data_dir: &str) -> (dir: String)
    ensures
        dir@ == path_join(data_dir@, "temp"@),
{
    join_path(data_dir, "temp")
}

} // verus!
