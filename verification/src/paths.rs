use vstd::prelude::*;

verus! {

/// Joins `rest` onto `base` as a Unix path: an absolute `rest` replaces
/// `base`; otherwise a `/` separates the two unless `base` is empty or
/// already ends in one.
pub open spec fn path_join(base: Seq<char>, rest: Seq<char>) -> Seq<char> {
    if rest.len() > 0 && rest[0] == '/' {
        rest
    } else if base.len() > 0 && base.last() != '/' {
        base + seq!['/'] + rest
    } else {
        base + rest
    }
}

/// `path` starts with the home shorthand `~/`.
pub open spec fn starts_with_home(path: Seq<char>) -> bool {
    path.len() >= 2 && path[0] == '~' && path[1] == '/'
}

/// The path with a leading `~/` replaced by the home directory.
pub open spec fn spec_expand_tilde(path: Seq<char>, home: Seq<char>) -> Seq<char> {
    if starts_with_home(path) {
        path_join(home, path.skip(2))
    } else {
        path
    }
}

/// Joins `rest` onto `base` as a Unix path (see `path_join`).
pub fn join(base: &str, rest: &str) -> (joined: String)
    ensures
        joined@ == path_join(base@, rest@),
{
    let rest_len = rest.unicode_len();
    if rest_len > 0 && rest.get_char(0) == '/' {
        return String::from_str(rest);
    }
    let base_len = base.unicode_len();
    let mut joined = String::from_str(base);
    if base_len > 0 && base.get_char(base_len - 1) != '/' {
        proof {
            reveal_strlit("/");
        }
        joined.append("/");
    }
    joined.append(rest);
    joined
}

/// Expands a leading `~/` into the home directory `home` (empty when the home
/// directory is unknown); other paths are returned as they are.
pub fn expand_tilde(path: &str, home: &str) -> (expanded: String)
    ensures
        expanded@ == spec_expand_tilde(path@, home@),
{
    let len = path.unicode_len();
    if len >= 2 && path.get_char(0) == '~' && path.get_char(1) == '/' {
        let rest = path.substring_char(2, len);
        assert(rest@ =~= path@.skip(2));
        join(home, rest)
    } else {
        String::from_str(path)
    }
}

} // verus!
