//! Validation of everything that is later handed to the package-manager
//! actuator.  The actuator runs as an external process, so names and options
//! must match a strict allow-list pattern before they may appear in a
//! command line; anything that could smuggle shell metacharacters through is
//! rejected here.

use vstd::prelude::*;

use crate::error::{ShardError, ShardResult};

verus! {

/// An ASCII letter or digit: the only characters a package or tap name may
/// start with.
pub open spec fn is_name_start_char(c: char) -> bool {
    let x = c as u32;
    (48 <= x <= 57) || (65 <= x <= 90) || (97 <= x <= 122)
}

/// A character allowed after the first one in a package name:
/// letters, digits, `_`, `-`, `.`, `+`, `@`.
pub open spec fn is_name_char(c: char) -> bool {
    let x = c as u32;
    is_name_start_char(c) || x == 95 || x == 45 || x == 46 || x == 43 || x == 64
}

/// A character allowed in either half of a tap name:
/// letters, digits, `_`, `-`.
pub open spec fn is_tap_part_char(c: char) -> bool {
    let x = c as u32;
    is_name_start_char(c) || x == 95 || x == 45
}

/// A character allowed in the body of a command option:
/// letters, digits, `_`, `-`.
pub open spec fn is_option_body_char(c: char) -> bool {
    is_tap_part_char(c)
}

/// A character allowed in the value part of a `--key=value` option:
/// letters, digits, `_`, `-`, `.`, `+`, `/`.
pub open spec fn is_option_value_char(c: char) -> bool {
    let x = c as u32;
    is_name_start_char(c) || x == 95 || x == 45 || x == 46 || x == 43 || x == 47
}

/// A character that is never accepted in a search query because the query
/// reaches a command line: `;`, `&`, `|`, `<`, `>`, backtick.
pub open spec fn is_query_forbidden_char(c: char) -> bool {
    let x = c as u32;
    x == 59 || x == 38 || x == 124 || x == 60 || x == 62 || x == 96
}

/// A valid package (formula or cask) name: non-empty, starts with a letter
/// or digit, and continues with name characters only.
pub open spec fn valid_package_name(s: Seq<char>) -> bool {
    &&& s.len() > 0
    &&& is_name_start_char(s[0])
    &&& forall|i: int| 1 <= i < s.len() ==> is_name_char(#[trigger] s[i])
}

/// Position `k` splits `s` into a well-formed tap name `owner/repo`.
pub open spec fn tap_split_ok(s: Seq<char>, k: int) -> bool {
    &&& 1 <= k < s.len() - 1
    &&& s[k] == '/'
    &&& forall|i: int| 0 <= i < k ==> is_tap_part_char(#[trigger] s[i])
    &&& forall|i: int| k < i < s.len() ==> is_tap_part_char(#[trigger] s[i])
}

/// A valid tap name: `owner/repo`, both halves non-empty and made of tap
/// characters.  Tap characters never include `/`, so the separator is
/// unique.
pub open spec fn valid_tap_name(s: Seq<char>) -> bool {
    exists|k: int| #[trigger] tap_split_ok(s, k)
}

/// Position `k` splits an option into `-body` (when `k` is the length) or
/// `-body=value` (when `s[k]` is the `=`).
pub open spec fn option_split_ok(s: Seq<char>, k: int) -> bool {
    &&& 1 < k <= s.len()
    &&& forall|i: int| 1 <= i < k ==> is_option_body_char(#[trigger] s[i])
    &&& if k == s.len() {
        true
    } else {
        &&& s[k] == '='
        &&& k + 1 < s.len()
        &&& forall|i: int| k < i < s.len() ==> is_option_value_char(#[trigger] s[i])
    }
}

/// A valid command option: a dash, then at least one body character, then
/// optionally `=` followed by at least one value character.  (The body
/// class contains `-` itself, so `--flag` needs no special case.)
pub open spec fn valid_option(s: Seq<char>) -> bool {
    &&& s.len() >= 2
    &&& s[0] == '-'
    &&& exists|k: int| #[trigger] option_split_ok(s, k)
}

/// A valid search query: non-empty and free of the forbidden shell
/// metacharacters.
pub open spec fn valid_search_query(s: Seq<char>) -> bool {
    &&& s.len() > 0
    &&& forall|i: int| 0 <= i < s.len() ==> !is_query_forbidden_char(#[trigger] s[i])
}

/// Decide whether `c` may start a name.
fn check_name_start_char(c: char) -> (r: bool)
    ensures
        r == is_name_start_char(c),
{
    let x = c as u32;
    (48 <= x && x <= 57) || (65 <= x && x <= 90) || (97 <= x && x <= 122)
}

/// Decide whether `c` may continue a name.
fn check_name_char(c: char) -> (r: bool)
    ensures
        r == is_name_char(c),
{
    let x = c as u32;
    check_name_start_char(c) || x == 95 || x == 45 || x == 46 || x == 43 || x == 64
}

/// Decide whether `c` may stand in a tap half.
fn check_tap_part_char(c: char) -> (r: bool)
    ensures
        r == is_tap_part_char(c),
{
    let x = c as u32;
    check_name_start_char(c) || x == 95 || x == 45
}

/// Decide whether `c` may stand in an option value.
fn check_option_value_char(c: char) -> (r: bool)
    ensures
        r == is_option_value_char(c),
{
    let x = c as u32;
    check_name_start_char(c) || x == 95 || x == 45 || x == 46 || x == 43 || x == 47
}

/// Decide whether `c` is forbidden in a search query.
fn check_query_forbidden_char(c: char) -> (r: bool)
    ensures
        r == is_query_forbidden_char(c),
{
    let x = c as u32;
    x == 59 || x == 38 || x == 124 || x == 60 || x == 62 || x == 96
}

/// Test whether a string is a valid package name, without building an error.
pub fn is_valid_package_name(name: &str) -> (r: bool)
    ensures
        r == valid_package_name(name@),
{
    let n = name.unicode_len();
    if n == 0 {
        return false;
    }
    if !check_name_start_char(name.get_char(0)) {
        return false;
    }
    let mut i: usize = 1;
    while i < n
        invariant
            1 <= i <= n,
            n == name@.len(),
            is_name_start_char(name@[0]),
            forall|j: int| 1 <= j < i ==> is_name_char(#[trigger] name@[j]),
        decreases n - i,
    {
        if !check_name_char(name.get_char(i)) {
            return false;
        }
        i = i + 1;
    }
    true
}

/// Test whether a string is a valid tap name, without building an error.
pub fn is_valid_tap_name(name: &str) -> (r: bool)
    ensures
        r == valid_tap_name(name@),
{
    let n = name.unicode_len();
    // Find the first `/`; everything before it must be a tap character.
    let mut i: usize = 0;
    while i < n
        invariant
            0 <= i <= n,
            n == name@.len(),
            forall|j: int| 0 <= j < i ==> is_tap_part_char(#[trigger] name@[j]),
            forall|j: int| 0 <= j < i ==> name@[j] != '/',
        ensures
            0 <= i <= n,
            n == name@.len(),
            forall|j: int| 0 <= j < i ==> is_tap_part_char(#[trigger] name@[j]),
            forall|j: int| 0 <= j < i ==> name@[j] != '/',
            i < n ==> name@[i as int] == '/',
        decreases n - i,
    {
        let c = name.get_char(i);
        if c == '/' {
            break;
        }
        if !check_tap_part_char(c) {
            // An invalid character before any separator: no split position
            // can work, since the separator would have to come later.
            proof {
                if valid_tap_name(name@) {
                    let k = choose|k: int| #[trigger] tap_split_ok(name@, k);
                    assert(name@[k] == '/');
                    assert(k > i);
                    assert(is_tap_part_char(name@[i as int]));
                }
            }
            return false;
        }
        i = i + 1;
    }
    if i >= n {
        // No separator at all.
        proof {
            if valid_tap_name(name@) {
                let k = choose|k: int| #[trigger] tap_split_ok(name@, k);
                assert(name@[k] == '/');
            }
        }
        return false;
    }
    let slash = i;
    assert(name@[slash as int] == '/');
    if slash == 0 || slash + 1 >= n {
        // Empty owner or empty repository half.
        proof {
            if valid_tap_name(name@) {
                let k = choose|k: int| #[trigger] tap_split_ok(name@, k);
                if k < slash {
                    assert(name@[k] != '/');
                } else if k > slash {
                    assert(is_tap_part_char(name@[slash as int]));
                }
            }
        }
        return false;
    }
    // Everything after the separator must be a tap character (which also
    // rules out a second separator).
    let mut j: usize = slash + 1;
    while j < n
        invariant
            slash + 1 <= j <= n,
            slash + 1 < n,
            n == name@.len(),
            1 <= slash < n - 1,
            name@[slash as int] == '/',
            forall|t: int| 0 <= t < slash ==> is_tap_part_char(#[trigger] name@[t]),
            forall|t: int| 0 <= t < slash ==> name@[t] != '/',
            forall|t: int| slash < t < j ==> is_tap_part_char(#[trigger] name@[t]),
        decreases n - j,
    {
        let c = name.get_char(j);
        if !check_tap_part_char(c) {
            proof {
                if valid_tap_name(name@) {
                    let k = choose|k: int| #[trigger] tap_split_ok(name@, k);
                    if k < slash {
                        assert(name@[k] != '/');
                    } else if k > slash {
                        assert(is_tap_part_char(name@[slash as int]));
                    } else {
                        assert(is_tap_part_char(name@[j as int]));
                    }
                }
            }
            return false;
        }
        j = j + 1;
    }
    proof {
        assert(tap_split_ok(name@, slash as int));
    }
    true
}

/// Validate a package (formula or cask) name.  Returns the name unchanged
/// exactly when it matches the allow-list pattern.
pub fn validate_package_name<'a>(name: &'a str) -> (r: ShardResult<&'a str>)
    ensures
        r is Ok <==> valid_package_name(name@),
        r matches Ok(s) ==> s@ == name@,
        r matches Err(e) ==> e matches ShardError::ValidationError(_),
{
    if is_valid_package_name(name) {
        Ok(name)
    } else {
        Err(ShardError::ValidationError(name.to_owned()))
    }
}

/// Validate a tap name of the form `owner/repo`.
pub fn validate_tap_name<'a>(name: &'a str) -> (r: ShardResult<&'a str>)
    ensures
        r is Ok <==> valid_tap_name(name@),
        r matches Ok(s) ==> s@ == name@,
        r matches Err(e) ==> e matches ShardError::ValidationError(_),
{
    if is_valid_tap_name(name) {
        Ok(name)
    } else {
        Err(ShardError::ValidationError(name.to_owned()))
    }
}

/// Test whether a string is a valid command option.
pub fn is_valid_option(option: &str) -> (r: bool)
    ensures
        r == valid_option(option@),
{
    let n = option.unicode_len();
    if n < 2 {
        return false;
    }
    if option.get_char(0) != '-' {
        return false;
    }
    // Scan the body: characters from the body class, up to the first `=`
    // or the end.
    let mut i: usize = 1;
    while i < n
        invariant
            1 <= i <= n,
            n == option@.len(),
            option@[0] == '-',
            n >= 2,
            forall|j: int| 1 <= j < i ==> is_option_body_char(#[trigger] option@[j]),
            forall|j: int| 1 <= j < i ==> option@[j] != '=',
        ensures
            1 <= i <= n,
            n == option@.len(),
            option@[0] == '-',
            n >= 2,
            forall|j: int| 1 <= j < i ==> is_option_body_char(#[trigger] option@[j]),
            forall|j: int| 1 <= j < i ==> option@[j] != '=',
            i < n ==> option@[i as int] == '=',
        decreases n - i,
    {
        let c = option.get_char(i);
        if c == '=' {
            break;
        }
        if !check_tap_part_char(c) {
            proof {
                if valid_option(option@) {
                    let k = choose|k: int| #[trigger] option_split_ok(option@, k);
                    if k > i {
                        assert(is_option_body_char(option@[i as int]));
                    } else {
                        assert(option@[k] != '=');
                    }
                }
            }
            return false;
        }
        i = i + 1;
    }
    if i >= n {
        // No `=`: the whole tail is body; need at least one body character.
        if i == 1 {
            proof {
                if valid_option(option@) {
                    let k = choose|k: int| #[trigger] option_split_ok(option@, k);
                    assert(k > 1);
                }
            }
            return false;
        }
        proof {
            assert(option_split_ok(option@, i as int));
        }
        return true;
    }
    let eq = i;
    assert(option@[eq as int] == '=');
    if eq == 1 {
        // Empty body before `=`.
        proof {
            if valid_option(option@) {
                let k = choose|k: int| #[trigger] option_split_ok(option@, k);
                assert(is_option_body_char(option@[1]));
            }
        }
        return false;
    }
    if eq + 1 >= n {
        // Empty value after `=`.
        proof {
            if valid_option(option@) {
                let k = choose|k: int| #[trigger] option_split_ok(option@, k);
                if k < eq {
                    assert(option@[k] != '=');
                } else if k > eq {
                    assert(is_option_body_char(option@[eq as int]));
                }
            }
        }
        return false;
    }
    let mut j: usize = eq + 1;
    while j < n
        invariant
            eq + 1 <= j <= n,
            eq + 1 < n,
            n == option@.len(),
            1 < eq < n - 1,
            option@[0] == '-',
            option@[eq as int] == '=',
            forall|t: int| 1 <= t < eq ==> is_option_body_char(#[trigger] option@[t]),
            forall|t: int| 1 <= t < eq ==> option@[t] != '=',
            forall|t: int| eq < t < j ==> is_option_value_char(#[trigger] option@[t]),
        decreases n - j,
    {
        let c = option.get_char(j);
        if !check_option_value_char(c) {
            proof {
                if valid_option(option@) {
                    let k = choose|k: int| #[trigger] option_split_ok(option@, k);
                    if k < eq {
                        assert(option@[k] != '=');
                    } else if k == eq {
                        assert(is_option_value_char(option@[j as int]));
                    } else {
                        assert(is_option_body_char(option@[eq as int]));
                    }
                }
            }
            return false;
        }
        j = j + 1;
    }
    proof {
        assert(option_split_ok(option@, eq as int));
    }
    true
}

/// Validate a single command option such as `--with-foo` or `--prefix=/opt`.
pub fn validate_option<'a>(option: &'a str) -> (r: ShardResult<&'a str>)
    ensures
        r is Ok <==> valid_option(option@),
        r matches Ok(s) ==> s@ == option@,
        r matches Err(e) ==> e matches ShardError::ValidationError(_),
{
    if is_valid_option(option) {
        Ok(option)
    } else {
        Err(ShardError::ValidationError(option.to_owned()))
    }
}

/// Validate every option in a list.
pub fn validate_options(options: &Vec<String>) -> (r: ShardResult<()>)
    ensures
        r is Ok <==> (forall|i: int| 0 <= i < options@.len() ==> valid_option(options@[i]@)),
        r matches Err(e) ==> e matches ShardError::ValidationError(_),
{
    let n = options.len();
    let mut i: usize = 0;
    while i < n
        invariant
            0 <= i <= n,
            n == options@.len(),
            forall|j: int| 0 <= j < i ==> valid_option(#[trigger] options@[j]@),
        decreases n - i,
    {
        if !is_valid_option(options[i].as_str()) {
            return Err(ShardError::ValidationError(options[i].clone()));
        }
        i = i + 1;
    }
    Ok(())
}

/// Validate a search query: more permissive than a package name, but shell
/// metacharacters are still rejected.
pub fn validate_search_query<'a>(query: &'a str) -> (r: ShardResult<&'a str>)
    ensures
        r is Ok <==> valid_search_query(query@),
        r matches Ok(s) ==> s@ == query@,
        r matches Err(e) ==> e matches ShardError::ValidationError(_),
{
    let n = query.unicode_len();
    if n == 0 {
        return Err(ShardError::ValidationError(query.to_owned()));
    }
    let mut i: usize = 0;
    while i < n
        invariant
            0 <= i <= n,
            n == query@.len(),
            forall|j: int| 0 <= j < i ==> !is_query_forbidden_char(#[trigger] query@[j]),
        decreases n - i,
    {
        if check_query_forbidden_char(query.get_char(i)) {
            return Err(ShardError::ValidationError(query.to_owned()));
        }
        i = i + 1;
    }
    Ok(query)
}

} // verus!
