//! The actuator command model.
//!
//! The package manager itself runs as an external process; nothing here
//! spawns it.  Instead, every operation the engine can ask for is built
//! here as an exact argument list, with its inputs validated against the
//! allow-list patterns first, and the surrounding application runs the
//! returned commands in order.  The raw text an invocation prints comes
//! back through [`BrewCore::parse_list_output`], which turns it into the
//! plain name lists the engine works on.

use vstd::prelude::*;

use crate::error::{ShardError, ShardResult};
use crate::validate::{valid_option, valid_package_name, valid_search_query, valid_tap_name,
    is_valid_package_name, validate_options, validate_package_name, validate_search_query,
    validate_tap_name};

verus! {

/// One invocation of the package manager: the arguments that follow the
/// executable path.
#[derive(Debug)]
pub struct BrewCommand {
    /// The argument list, in order.
    pub args: Vec<String>,
}

impl View for BrewCommand {
    type V = Seq<Seq<char>>;

    open spec fn view(&self) -> Seq<Seq<char>> {
        self.args.deep_view()
    }
}

impl DeepView for BrewCommand {
    type V = Seq<Seq<char>>;

    open spec fn deep_view(&self) -> Seq<Seq<char>> {
        self.view()
    }
}

/// Append copies of `extra` to an argument list.
fn extend_strings(args: &mut Vec<String>, extra: &Vec<String>)
    ensures
        final(args).deep_view() == old(args).deep_view() + extra.deep_view(),
{
    let n = extra.len();
    let mut i: usize = 0;
    while i < n
        invariant
            0 <= i <= n,
            n == extra@.len(),
            args.deep_view() == old(args).deep_view() + extra.deep_view().subrange(0, i as int),
        decreases n - i,
    {
        let ghost before = args.deep_view();
        args.push(extra[i].clone());
        proof {
            assert(args.deep_view() =~= before.push(extra.deep_view()[i as int]));
            assert(args.deep_view() =~= old(args).deep_view() + extra.deep_view().subrange(
                0,
                i + 1 as int,
            ));
        }
        i = i + 1;
    }
    proof {
        assert(extra.deep_view().subrange(0, n as int) =~= extra.deep_view());
        assert(args.deep_view() =~= old(args).deep_view() + extra.deep_view());
    }
}

/// Configuration every actuator invocation shares: where the executable
/// lives, whether to echo commands, and the timeout the runner must apply.
#[derive(Debug)]
pub struct BrewCore {
    /// Path to the package-manager executable.
    pub brew_path: String,
    /// Whether the runner should echo each command.
    pub debug: bool,
    /// Timeout in seconds for one invocation; `None` waits forever.
    pub timeout: Option<u64>,
}

impl BrewCore {
    /// The default configuration: `brew` on the search path, quiet, no
    /// timeout.
    pub fn new() -> (r: BrewCore)
        ensures
            r.brew_path@ == "brew"@,
            r.debug == false,
            r.timeout is None,
    {
        BrewCore { brew_path: "brew".to_owned(), debug: false, timeout: None }
    }

    /// A configuration with a custom executable path.
    pub fn with_path(brew_path: String) -> (r: BrewCore)
        ensures
            r.brew_path@ == brew_path@,
            r.debug == false,
            r.timeout is None,
    {
        BrewCore { brew_path, debug: false, timeout: None }
    }

    /// Turn command echoing on or off.
    pub fn with_debug(self, debug: bool) -> (r: BrewCore)
        ensures
            r.brew_path@ == self.brew_path@,
            r.debug == debug,
            r.timeout == self.timeout,
    {
        BrewCore { debug, ..self }
    }

    /// Set the per-invocation timeout in seconds.
    pub fn with_timeout(self, seconds: u64) -> (r: BrewCore)
        ensures
            r.brew_path@ == self.brew_path@,
            r.debug == self.debug,
            r.timeout == Some(seconds),
    {
        BrewCore { timeout: Some(seconds), ..self }
    }

    /// Split an invocation's output into lines, trim each, and keep the
    /// non-empty ones: the shape of every listing the actuator prints.
    pub fn parse_list_output(&self, output: &str) -> (r: Vec<String>)
        ensures
            r.deep_view() == parse_list(output@),
    {
        let n = output.unicode_len();
        let mut result: Vec<String> = Vec::new();
        let mut start: usize = 0;
        let mut i: usize = 0;
        proof {
            assert(output@.subrange(0, 0) =~= Seq::<char>::empty());
            assert(result.deep_view() =~= scan_lines(output@.subrange(0, 0)).0);
            assert(output@.subrange(0, 0) =~= scan_lines(output@.subrange(0, 0)).1);
        }
        while i < n
            invariant
                0 <= start <= i <= n,
                n == output@.len(),
                result.deep_view() == scan_lines(output@.subrange(0, i as int)).0,
                output@.subrange(start as int, i as int) == scan_lines(
                    output@.subrange(0, i as int),
                ).1,
            decreases n - i,
        {
            let ghost pre = output@.subrange(0, i as int);
            let ghost post = output@.subrange(0, i + 1 as int);
            proof {
                assert(post.drop_last() =~= pre);
                assert(post.last() == output@[i as int]);
            }
            let c = output.get_char(i);
            if c == '\n' {
                let line = output.substring_char(start, i);
                let t = trim_str(line);
                if t.unicode_len() > 0 {
                    result.push(t);
                    proof {
                        assert(result.deep_view() =~= scan_lines(post).0);
                    }
                } else {
                    proof {
                        assert(trimmed(scan_lines(pre).1).len() == 0);
                        assert(result.deep_view() =~= scan_lines(post).0);
                    }
                }
                start = i + 1;
                proof {
                    assert(output@.subrange(start as int, i + 1 as int) =~= Seq::<char>::empty());
                    assert(output@.subrange(start as int, i + 1 as int) =~= scan_lines(post).1);
                }
            } else {
                proof {
                    assert(output@.subrange(start as int, i + 1 as int) =~= output@.subrange(
                        start as int,
                        i as int,
                    ).push(output@[i as int]));
                    assert(output@.subrange(start as int, i + 1 as int) =~= scan_lines(post).1);
                }
            }
            i = i + 1;
        }
        proof {
            assert(output@.subrange(0, n as int) =~= output@);
        }
        let line = output.substring_char(start, n);
        let t = trim_str(line);
        if t.unicode_len() > 0 {
            result.push(t);
            proof {
                assert(result.deep_view() =~= parse_list(output@));
            }
        } else {
            proof {
                assert(trimmed(scan_lines(output@).1).len() == 0);
                assert(result.deep_view() =~= parse_list(output@));
            }
        }
        result
    }
}

/// The default actuator configuration.
pub fn get_core() -> (r: BrewCore)
    ensures
        r.brew_path@ == "brew"@,
        r.debug == false,
        r.timeout is None,
{
    BrewCore::new()
}

/// An ASCII whitespace character: space, tab, carriage return, newline.
pub open spec fn is_ws(c: char) -> bool {
    let x = c as u32;
    x == 32 || x == 9 || x == 13 || x == 10
}

/// Drop leading whitespace.
pub open spec fn trim_start(s: Seq<char>) -> Seq<char>
    decreases s.len(),
{
    if s.len() == 0 {
        s
    } else if is_ws(s[0]) {
        trim_start(s.drop_first())
    } else {
        s
    }
}

/// Drop trailing whitespace.
pub open spec fn trim_end(s: Seq<char>) -> Seq<char>
    decreases s.len(),
{
    if s.len() == 0 {
        s
    } else if is_ws(s.last()) {
        trim_end(s.drop_last())
    } else {
        s
    }
}

/// Drop whitespace from both ends.
pub open spec fn trimmed(s: Seq<char>) -> Seq<char> {
    trim_end(trim_start(s))
}

/// Collect the trimmed non-empty token, if any.
pub open spec fn push_token(done: Seq<Seq<char>>, cur: Seq<char>) -> Seq<Seq<char>> {
    if trimmed(cur).len() == 0 {
        done
    } else {
        done.push(trimmed(cur))
    }
}

/// Walk the text once: completed tokens so far and the segment since the
/// last newline.
pub open spec fn scan_lines(s: Seq<char>) -> (Seq<Seq<char>>, Seq<char>)
    decreases s.len(),
{
    if s.len() == 0 {
        (Seq::empty(), Seq::empty())
    } else {
        let (done, cur) = scan_lines(s.drop_last());
        if s.last() == '\n' {
            (push_token(done, cur), Seq::empty())
        } else {
            (done, cur.push(s.last()))
        }
    }
}

/// Every trimmed non-empty line of `s`, in order.
pub open spec fn parse_list(s: Seq<char>) -> Seq<Seq<char>> {
    let (done, cur) = scan_lines(s);
    push_token(done, cur)
}

/// Skipping a whitespace prefix does not change `trim_start`.
proof fn lemma_trim_start_skip(s: Seq<char>, i: int)
    requires
        0 <= i <= s.len(),
        forall|j: int| 0 <= j < i ==> is_ws(s[j]),
    ensures
        trim_start(s) == trim_start(s.subrange(i, s.len() as int)),
    decreases i,
{
    if i == 0 {
        assert(s.subrange(0, s.len() as int) =~= s);
    } else {
        assert(is_ws(s[0]));
        assert(trim_start(s) == trim_start(s.drop_first()));
        let t = s.drop_first();
        assert(forall|j: int| 0 <= j < i - 1 ==> is_ws(#[trigger] t[j]));
        lemma_trim_start_skip(t, i - 1);
        assert(t.subrange(i - 1, t.len() as int) =~= s.subrange(i, s.len() as int));
    }
}

/// Skipping a whitespace suffix does not change `trim_end`.
proof fn lemma_trim_end_skip(s: Seq<char>, i: int)
    requires
        0 <= i <= s.len(),
        forall|j: int| i <= j < s.len() ==> is_ws(s[j]),
    ensures
        trim_end(s) == trim_end(s.subrange(0, i)),
    decreases s.len() - i,
{
    if i == s.len() {
        assert(s.subrange(0, i) =~= s);
    } else {
        assert(is_ws(s.last()));
        assert(trim_end(s) == trim_end(s.drop_last()));
        let t = s.drop_last();
        assert(forall|j: int| i <= j < t.len() ==> is_ws(#[trigger] t[j]));
        lemma_trim_end_skip(t, i);
        assert(t.subrange(0, i) =~= s.subrange(0, i));
    }
}

/// Trim ASCII whitespace from both ends of a string.
pub fn trim_str(s: &str) -> (r: String)
    ensures
        r@ == trimmed(s@),
{
    let n = s.unicode_len();
    let mut a: usize = 0;
    while a < n
        invariant
            0 <= a <= n,
            n == s@.len(),
            forall|j: int| 0 <= j < a ==> is_ws(s@[j]),
        ensures
            0 <= a <= n,
            n == s@.len(),
            forall|j: int| 0 <= j < a ==> is_ws(s@[j]),
            a < n ==> !is_ws(s@[a as int]),
        decreases n - a,
    {
        let c = s.get_char(a);
        let x = c as u32;
        if !(x == 32 || x == 9 || x == 13 || x == 10) {
            break;
        }
        a = a + 1;
    }
    if a >= n {
        // Nothing but whitespace.
        proof {
            lemma_trim_start_skip(s@, n as int);
            assert(s@.subrange(n as int, n as int) =~= Seq::<char>::empty());
            assert(trim_start(s@).len() == 0);
            assert(trimmed(s@) =~= Seq::<char>::empty());
        }
        return String::new();
    }
    let mut b: usize = n;
    while b > a + 1
        invariant
            a + 1 <= b <= n,
            n == s@.len(),
            a < n,
            !is_ws(s@[a as int]),
            forall|j: int| b <= j < n ==> is_ws(s@[j]),
        ensures
            a + 1 <= b <= n,
            n == s@.len(),
            forall|j: int| b <= j < n ==> is_ws(s@[j]),
            !is_ws(s@[b - 1]),
        decreases b,
    {
        let c = s.get_char(b - 1);
        let x = c as u32;
        if !(x == 32 || x == 9 || x == 13 || x == 10) {
            break;
        }
        b = b - 1;
    }
    let r = s.substring_char(a, b).to_owned();
    proof {
        lemma_trim_start_skip(s@, a as int);
        let tail = s@.subrange(a as int, n as int);
        assert(!is_ws(tail[0]));
        assert(trim_start(s@) == tail);
        assert(forall|j: int| b - a <= j < tail.len() ==> is_ws(#[trigger] tail[j]));
        lemma_trim_end_skip(tail, b - a);
        assert(!is_ws(tail[b - a - 1]));
        assert(tail.subrange(0, b - a).last() == tail[b - a - 1]);
        assert(trim_end(tail.subrange(0, b - a)) == tail.subrange(0, b - a));
        assert(tail.subrange(0, b - a) =~= s@.subrange(a as int, b as int));
        assert(r@ == trimmed(s@));
    }
    r
}

/// The actuator client: one verified builder per operation the engine can
/// request.  Every builder validates its inputs and returns the exact
/// argument list the runner must execute.
#[derive(Debug)]
pub struct BrewClient {
    /// Path to the package-manager executable.
    pub brew_path: String,
    /// Whether the runner should echo each command.
    pub debug: bool,
    /// Timeout in seconds for one invocation; `None` waits forever.
    pub timeout: Option<u64>,
}

impl BrewClient {
    /// The default client.
    pub fn new() -> (r: BrewClient)
        ensures
            r.brew_path@ == "brew"@,
            r.debug == false,
            r.timeout is None,
    {
        BrewClient { brew_path: "brew".to_owned(), debug: false, timeout: None }
    }

    /// A client with a custom executable path.
    pub fn with_path(brew_path: String) -> (r: BrewClient)
        ensures
            r.brew_path@ == brew_path@,
            r.debug == false,
            r.timeout is None,
    {
        BrewClient { brew_path, debug: false, timeout: None }
    }

    /// Turn command echoing on or off.
    pub fn with_debug(self, debug: bool) -> (r: BrewClient)
        ensures
            r.brew_path@ == self.brew_path@,
            r.debug == debug,
            r.timeout == self.timeout,
    {
        BrewClient { debug, ..self }
    }

    /// Set the per-invocation timeout in seconds.
    pub fn with_timeout(self, seconds: u64) -> (r: BrewClient)
        ensures
            r.brew_path@ == self.brew_path@,
            r.debug == self.debug,
            r.timeout == Some(seconds),
    {
        BrewClient { timeout: Some(seconds), ..self }
    }

    /// The invocation that registers a tap.
    pub fn add_tap(&self, tap: &str) -> (r: ShardResult<BrewCommand>)
        ensures
            r is Ok <==> valid_tap_name(tap@),
            r matches Ok(c) ==> c@ == seq!["tap"@, tap@],
            r matches Err(e) ==> e matches ShardError::ValidationError(_),
    {
        let validated = validate_tap_name(tap)?;
        let mut args: Vec<String> = Vec::new();
        args.push("tap".to_owned());
        args.push(validated.to_owned());
        let c = BrewCommand { args };
        proof {
            assert(c@ =~= seq!["tap"@, tap@]);
        }
        Ok(c)
    }

    /// The invocation that installs one formula with options.
    pub fn install_formula(&self, formula: &str, options: &Vec<String>) -> (r: ShardResult<
        BrewCommand,
    >)
        ensures
            r is Ok <==> valid_package_name(formula@) && (forall|i: int|
                0 <= i < options@.len() ==> valid_option(#[trigger] options@[i]@)),
            r matches Ok(c) ==> c@ == seq!["install"@, formula@] + options.deep_view(),
            r matches Err(e) ==> e matches ShardError::ValidationError(_),
    {
        let validated = validate_package_name(formula)?;
        validate_options(options)?;
        let mut args: Vec<String> = Vec::new();
        args.push("install".to_owned());
        args.push(validated.to_owned());
        proof {
            assert(args.deep_view() =~= seq!["install"@, formula@]);
        }
        extend_strings(&mut args, options);
        Ok(BrewCommand { args })
    }

    /// The invocation that installs one cask with options.
    pub fn install_cask(&self, cask: &str, options: &Vec<String>) -> (r: ShardResult<BrewCommand>)
        ensures
            r is Ok <==> valid_package_name(cask@) && (forall|i: int|
                0 <= i < options@.len() ==> valid_option(#[trigger] options@[i]@)),
            r matches Ok(c) ==> c@ == seq!["install"@, "--cask"@, cask@] + options.deep_view(),
            r matches Err(e) ==> e matches ShardError::ValidationError(_),
    {
        let validated = validate_package_name(cask)?;
        validate_options(options)?;
        let mut args: Vec<String> = Vec::new();
        args.push("install".to_owned());
        args.push("--cask".to_owned());
        args.push(validated.to_owned());
        proof {
            assert(args.deep_view() =~= seq!["install"@, "--cask"@, cask@]);
        }
        extend_strings(&mut args, options);
        Ok(BrewCommand { args })
    }

    /// The invocation that lists installed formulae.
    pub fn get_installed_formulae(&self) -> (r: BrewCommand)
        ensures
            r@ == seq!["list"@, "--formula"@],
    {
        let mut args: Vec<String> = Vec::new();
        args.push("list".to_owned());
        args.push("--formula".to_owned());
        let c = BrewCommand { args };
        proof {
            assert(c@ =~= seq!["list"@, "--formula"@]);
        }
        c
    }

    /// The invocation that lists installed casks.
    pub fn get_installed_casks(&self) -> (r: BrewCommand)
        ensures
            r@ == seq!["list"@, "--cask"@],
    {
        let mut args: Vec<String> = Vec::new();
        args.push("list".to_owned());
        args.push("--cask".to_owned());
        let c = BrewCommand { args };
        proof {
            assert(c@ =~= seq!["list"@, "--cask"@]);
        }
        c
    }

    /// The invocation that lists installed taps.
    pub fn get_installed_taps(&self) -> (r: BrewCommand)
        ensures
            r@ == seq!["tap"@],
    {
        let mut args: Vec<String> = Vec::new();
        args.push("tap".to_owned());
        let c = BrewCommand { args };
        proof {
            assert(c@ =~= seq!["tap"@]);
        }
        c
    }

    /// The invocation that lists the formulae installed only as
    /// dependencies.
    pub fn get_dependency_packages(&self) -> (r: BrewCommand)
        ensures
            r@ == seq!["list"@, "--installed-as-dependency"@],
    {
        let mut args: Vec<String> = Vec::new();
        args.push("list".to_owned());
        args.push("--installed-as-dependency".to_owned());
        let c = BrewCommand { args };
        proof {
            assert(c@ =~= seq!["list"@, "--installed-as-dependency"@]);
        }
        c
    }

    /// The single batch invocation that installs many formulae; `None`
    /// when there is nothing to install.
    pub fn batch_install_formulae(&self, formulae: &Vec<String>) -> (r: ShardResult<Option<
        BrewCommand,
    >>)
        ensures
            r is Ok <==> (forall|i: int|
                0 <= i < formulae@.len() ==> valid_package_name(#[trigger] formulae@[i]@)),
            r matches Ok(c) ==> ((c matches Some(cc)) <==> formulae@.len() > 0),
            r matches Ok(Some(c)) ==> c@ == seq!["install"@] + formulae.deep_view(),
            r matches Err(e) ==> e matches ShardError::ValidationError(_),
    {
        self.batch_command("install", false, formulae)
    }

    /// The single batch invocation that installs many casks.
    pub fn batch_install_casks(&self, casks: &Vec<String>) -> (r: ShardResult<Option<BrewCommand>>)
        ensures
            r is Ok <==> (forall|i: int|
                0 <= i < casks@.len() ==> valid_package_name(#[trigger] casks@[i]@)),
            r matches Ok(c) ==> ((c matches Some(cc)) <==> casks@.len() > 0),
            r matches Ok(Some(c)) ==> c@ == seq!["install"@, "--cask"@] + casks.deep_view(),
            r matches Err(e) ==> e matches ShardError::ValidationError(_),
    {
        self.batch_command("install", true, casks)
    }

    /// The single batch invocation that upgrades many formulae.
    pub fn batch_upgrade_formulae(&self, formulae: &Vec<String>) -> (r: ShardResult<Option<
        BrewCommand,
    >>)
        ensures
            r is Ok <==> (forall|i: int|
                0 <= i < formulae@.len() ==> valid_package_name(#[trigger] formulae@[i]@)),
            r matches Ok(c) ==> ((c matches Some(cc)) <==> formulae@.len() > 0),
            r matches Ok(Some(c)) ==> c@ == seq!["upgrade"@] + formulae.deep_view(),
            r matches Err(e) ==> e matches ShardError::ValidationError(_),
    {
        self.batch_command("upgrade", false, formulae)
    }

    /// The single batch invocation that upgrades many casks.
    pub fn batch_upgrade_casks(&self, casks: &Vec<String>) -> (r: ShardResult<Option<BrewCommand>>)
        ensures
            r is Ok <==> (forall|i: int|
                0 <= i < casks@.len() ==> valid_package_name(#[trigger] casks@[i]@)),
            r matches Ok(c) ==> ((c matches Some(cc)) <==> casks@.len() > 0),
            r matches Ok(Some(c)) ==> c@ == seq!["upgrade"@, "--cask"@] + casks.deep_view(),
            r matches Err(e) ==> e matches ShardError::ValidationError(_),
    {
        self.batch_command("upgrade", true, casks)
    }

    /// Build one batch invocation: the verb, `--cask` where casks are
    /// meant, then every validated name.
    fn batch_command(&self, verb: &str, cask: bool, names: &Vec<String>) -> (r: ShardResult<Option<
        BrewCommand,
    >>)
        ensures
            r is Ok <==> (forall|i: int|
                0 <= i < names@.len() ==> valid_package_name(#[trigger] names@[i]@)),
            r matches Ok(c) ==> ((c matches Some(cc)) <==> names@.len() > 0),
            r matches Ok(Some(c)) ==> c@ == (if cask {
                seq![verb@, "--cask"@]
            } else {
                seq![verb@]
            }) + names.deep_view(),
            r matches Err(e) ==> e matches ShardError::ValidationError(_),
    {
        let n = names.len();
        let mut i: usize = 0;
        while i < n
            invariant
                0 <= i <= n,
                n == names@.len(),
                forall|j: int| 0 <= j < i ==> valid_package_name(#[trigger] names@[j]@),
            decreases n - i,
        {
            if !is_valid_package_name(names[i].as_str()) {
                return Err(ShardError::ValidationError(names[i].clone()));
            }
            i = i + 1;
        }
        if n == 0 {
            return Ok(None);
        }
        let mut args: Vec<String> = Vec::new();
        args.push(verb.to_owned());
        if cask {
            args.push("--cask".to_owned());
            proof {
                assert(args.deep_view() =~= seq![verb@, "--cask"@]);
            }
        } else {
            proof {
                assert(args.deep_view() =~= seq![verb@]);
            }
        }
        extend_strings(&mut args, names);
        Ok(Some(BrewCommand { args }))
    }

    /// The invocation that upgrades one formula with options.
    pub fn upgrade_formula_with_options(&self, formula: &str, options: &Vec<String>) -> (r:
        ShardResult<BrewCommand>)
        ensures
            r is Ok <==> valid_package_name(formula@) && (forall|i: int|
                0 <= i < options@.len() ==> valid_option(#[trigger] options@[i]@)),
            r matches Ok(c) ==> c@ == seq!["upgrade"@, formula@] + options.deep_view(),
            r matches Err(e) ==> e matches ShardError::ValidationError(_),
    {
        let validated = validate_package_name(formula)?;
        validate_options(options)?;
        let mut args: Vec<String> = Vec::new();
        args.push("upgrade".to_owned());
        args.push(validated.to_owned());
        proof {
            assert(args.deep_view() =~= seq!["upgrade"@, formula@]);
        }
        extend_strings(&mut args, options);
        Ok(BrewCommand { args })
    }

    /// The invocation that upgrades one cask with options.
    pub fn upgrade_cask_with_options(&self, cask: &str, options: &Vec<String>) -> (r: ShardResult<
        BrewCommand,
    >)
        ensures
            r is Ok <==> valid_package_name(cask@) && (forall|i: int|
                0 <= i < options@.len() ==> valid_option(#[trigger] options@[i]@)),
            r matches Ok(c) ==> c@ == seq!["upgrade"@, "--cask"@, cask@] + options.deep_view(),
            r matches Err(e) ==> e matches ShardError::ValidationError(_),
    {
        let validated = validate_package_name(cask)?;
        validate_options(options)?;
        let mut args: Vec<String> = Vec::new();
        args.push("upgrade".to_owned());
        args.push("--cask".to_owned());
        args.push(validated.to_owned());
        proof {
            assert(args.deep_view() =~= seq!["upgrade"@, "--cask"@, cask@]);
        }
        extend_strings(&mut args, options);
        Ok(BrewCommand { args })
    }

    /// The invocation that uninstalls one formula.
    pub fn uninstall_formula(&self, formula: &str, force: bool) -> (r: ShardResult<BrewCommand>)
        ensures
            r is Ok <==> valid_package_name(formula@),
            r matches Ok(c) ==> c@ == (if force {
                seq!["uninstall"@, "--formula"@, formula@, "--force"@]
            } else {
                seq!["uninstall"@, "--formula"@, formula@]
            }),
            r matches Err(e) ==> e matches ShardError::ValidationError(_),
    {
        let validated = validate_package_name(formula)?;
        let mut args: Vec<String> = Vec::new();
        args.push("uninstall".to_owned());
        args.push("--formula".to_owned());
        args.push(validated.to_owned());
        if force {
            args.push("--force".to_owned());
            proof {
                assert(args.deep_view() =~= seq![
                    "uninstall"@,
                    "--formula"@,
                    formula@,
                    "--force"@,
                ]);
            }
        } else {
            proof {
                assert(args.deep_view() =~= seq!["uninstall"@, "--formula"@, formula@]);
            }
        }
        Ok(BrewCommand { args })
    }

    /// The invocation that uninstalls one cask.
    pub fn uninstall_cask(&self, cask: &str, force: bool) -> (r: ShardResult<BrewCommand>)
        ensures
            r is Ok <==> valid_package_name(cask@),
            r matches Ok(c) ==> c@ == (if force {
                seq!["uninstall"@, "--cask"@, cask@, "--force"@]
            } else {
                seq!["uninstall"@, "--cask"@, cask@]
            }),
            r matches Err(e) ==> e matches ShardError::ValidationError(_),
    {
        let validated = validate_package_name(cask)?;
        let mut args: Vec<String> = Vec::new();
        args.push("uninstall".to_owned());
        args.push("--cask".to_owned());
        args.push(validated.to_owned());
        if force {
            args.push("--force".to_owned());
            proof {
                assert(args.deep_view() =~= seq!["uninstall"@, "--cask"@, cask@, "--force"@]);
            }
        } else {
            proof {
                assert(args.deep_view() =~= seq!["uninstall"@, "--cask"@, cask@]);
            }
        }
        Ok(BrewCommand { args })
    }

    /// The invocation that prunes unused downloads and versions.
    pub fn cleanup(&self, prune_all: bool) -> (r: BrewCommand)
        ensures
            r@ == (if prune_all {
                seq!["cleanup"@, "--prune=all"@]
            } else {
                seq!["cleanup"@]
            }),
    {
        let mut args: Vec<String> = Vec::new();
        args.push("cleanup".to_owned());
        if prune_all {
            args.push("--prune=all".to_owned());
            proof {
                assert(args.deep_view() =~= seq!["cleanup"@, "--prune=all"@]);
            }
        } else {
            proof {
                assert(args.deep_view() =~= seq!["cleanup"@]);
            }
        }
        BrewCommand { args }
    }

    /// The invocation that searches for packages by name.
    pub fn search(&self, query: &str, formula_only: bool, cask_only: bool) -> (r: ShardResult<
        BrewCommand,
    >)
        ensures
            r is Ok <==> valid_search_query(query@),
            r matches Ok(c) ==> c@ == (if formula_only {
                seq!["search"@, "--formula"@, query@]
            } else if cask_only {
                seq!["search"@, "--cask"@, query@]
            } else {
                seq!["search"@, query@]
            }),
            r matches Err(e) ==> e matches ShardError::ValidationError(_),
    {
        let validated = validate_search_query(query)?;
        let mut args: Vec<String> = Vec::new();
        args.push("search".to_owned());
        if formula_only {
            args.push("--formula".to_owned());
        } else if cask_only {
            args.push("--cask".to_owned());
        }
        args.push(validated.to_owned());
        if formula_only {
            proof {
                assert(args.deep_view() =~= seq!["search"@, "--formula"@, query@]);
            }
        } else if cask_only {
            proof {
                assert(args.deep_view() =~= seq!["search"@, "--cask"@, query@]);
            }
        } else {
            proof {
                assert(args.deep_view() =~= seq!["search"@, query@]);
            }
        }
        Ok(BrewCommand { args })
    }
}

/// The default client.
pub fn get_client() -> (r: BrewClient)
    ensures
        r.brew_path@ == "brew"@,
        r.debug == false,
        r.timeout is None,
{
    BrewClient::new()
}

/// The per-package command list for a batch: one invocation per name, so
/// one failure cannot abort the rest.
pub open spec fn per_package_cmds(prefix: Seq<Seq<char>>, names: Seq<Seq<char>>) -> Seq<Seq<Seq<
    char,
>>> {
    Seq::new(names.len(), |i: int| prefix.push(names[i]))
}

/// The installer runs batches one package at a time, so a single failure
/// is logged and skipped rather than aborting the whole batch.  Each
/// method plans the same operations as [`BrewClient`], package by package.
#[derive(Debug)]
pub struct BrewInstaller {
    /// Shared actuator configuration.
    pub core: BrewCore,
}

impl BrewInstaller {
    /// An installer over the default configuration.
    pub fn new() -> (r: BrewInstaller)
        ensures
            r.core.brew_path@ == "brew"@,
            r.core.debug == false,
            r.core.timeout is None,
    {
        BrewInstaller { core: BrewCore::new() }
    }

    /// An installer over the given configuration.
    pub fn with_core(core: BrewCore) -> (r: BrewInstaller)
        ensures
            r.core == core,
    {
        BrewInstaller { core }
    }

    /// The invocation that registers a tap.
    pub fn add_tap(&self, tap: &str) -> (r: ShardResult<BrewCommand>)
        ensures
            r is Ok <==> valid_tap_name(tap@),
            r matches Ok(c) ==> c@ == seq!["tap"@, tap@],
            r matches Err(e) ==> e matches ShardError::ValidationError(_),
    {
        let validated = validate_tap_name(tap)?;
        let mut args: Vec<String> = Vec::new();
        args.push("tap".to_owned());
        args.push(validated.to_owned());
        let c = BrewCommand { args };
        proof {
            assert(c@ =~= seq!["tap"@, tap@]);
        }
        Ok(c)
    }

    /// One invocation per formula of the batch.
    pub fn batch_install_formulae(&self, formulae: &Vec<String>) -> (r: ShardResult<Vec<
        BrewCommand,
    >>)
        ensures
            r is Ok <==> (forall|i: int|
                0 <= i < formulae@.len() ==> valid_package_name(#[trigger] formulae@[i]@)),
            r matches Ok(cs) ==> cs.deep_view() == per_package_cmds(
                seq!["install"@],
                formulae.deep_view(),
            ),
            r matches Err(e) ==> e matches ShardError::ValidationError(_),
    {
        self.per_package("install", false, formulae)
    }

    /// One invocation per cask of the batch.
    pub fn batch_install_casks(&self, casks: &Vec<String>) -> (r: ShardResult<Vec<BrewCommand>>)
        ensures
            r is Ok <==> (forall|i: int|
                0 <= i < casks@.len() ==> valid_package_name(#[trigger] casks@[i]@)),
            r matches Ok(cs) ==> cs.deep_view() == per_package_cmds(
                seq!["install"@, "--cask"@],
                casks.deep_view(),
            ),
            r matches Err(e) ==> e matches ShardError::ValidationError(_),
    {
        self.per_package("install", true, casks)
    }

    /// One upgrade invocation per formula of the batch.
    pub fn batch_upgrade_formulae(&self, formulae: &Vec<String>) -> (r: ShardResult<Vec<
        BrewCommand,
    >>)
        ensures
            r is Ok <==> (forall|i: int|
                0 <= i < formulae@.len() ==> valid_package_name(#[trigger] formulae@[i]@)),
            r matches Ok(cs) ==> cs.deep_view() == per_package_cmds(
                seq!["upgrade"@],
                formulae.deep_view(),
            ),
            r matches Err(e) ==> e matches ShardError::ValidationError(_),
    {
        self.per_package("upgrade", false, formulae)
    }

    /// One upgrade invocation per cask of the batch.
    pub fn batch_upgrade_casks(&self, casks: &Vec<String>) -> (r: ShardResult<Vec<BrewCommand>>)
        ensures
            r is Ok <==> (forall|i: int|
                0 <= i < casks@.len() ==> valid_package_name(#[trigger] casks@[i]@)),
            r matches Ok(cs) ==> cs.deep_view() == per_package_cmds(
                seq!["upgrade"@, "--cask"@],
                casks.deep_view(),
            ),
            r matches Err(e) ==> e matches ShardError::ValidationError(_),
    {
        self.per_package("upgrade", true, casks)
    }

    /// One invocation per formula, with shared extra arguments placed
    /// before the name.
    pub fn batch_install_formulas(&self, formulas: &Vec<String>, args: &Vec<String>) -> (r:
        ShardResult<Vec<BrewCommand>>)
        ensures
            r is Ok <==> (forall|i: int|
                0 <= i < formulas@.len() ==> valid_package_name(#[trigger] formulas@[i]@)),
            r matches Ok(cs) ==> cs.deep_view() == per_package_cmds(
                seq!["install"@] + args.deep_view(),
                formulas.deep_view(),
            ),
            r matches Err(e) ==> e matches ShardError::ValidationError(_),
    {
        let n = formulas.len();
        let mut i: usize = 0;
        while i < n
            invariant
                0 <= i <= n,
                n == formulas@.len(),
                forall|j: int| 0 <= j < i ==> valid_package_name(#[trigger] formulas@[j]@),
            decreases n - i,
        {
            if !is_valid_package_name(formulas[i].as_str()) {
                return Err(ShardError::ValidationError(formulas[i].clone()));
            }
            i = i + 1;
        }
        let mut cmds: Vec<BrewCommand> = Vec::new();
        let mut k: usize = 0;
        proof {
            assert(cmds.deep_view() =~= per_package_cmds(
                seq!["install"@] + args.deep_view(),
                formulas.deep_view().subrange(0, 0),
            ));
        }
        while k < n
            invariant
                0 <= k <= n,
                n == formulas@.len(),
                cmds.deep_view() == per_package_cmds(
                    seq!["install"@] + args.deep_view(),
                    formulas.deep_view().subrange(0, k as int),
                ),
            decreases n - k,
        {
            let mut cargs: Vec<String> = Vec::new();
            cargs.push("install".to_owned());
            proof {
                assert(cargs.deep_view() =~= seq!["install"@]);
            }
            extend_strings(&mut cargs, args);
            cargs.push(formulas[k].clone());
            let ghost pfx = seq!["install"@] + args.deep_view();
            proof {
                assert(cargs.deep_view() =~= pfx.push(formulas.deep_view()[k as int]));
            }
            let ghost cv = cargs.deep_view();
            let ghost before = cmds.deep_view();
            let ghost before_raw = cmds@;
            let cmd = BrewCommand { args: cargs };
            let ghost cmdv = cmd;
            cmds.push(cmd);
            proof {
                let target = per_package_cmds(pfx, formulas.deep_view().subrange(
                    0,
                    k + 1 as int,
                ));
                assert(cmds@ == before_raw.push(cmdv));
                assert(before.len() == k);
                assert(before_raw.len() == k);
                assert(cmds@.len() == k + 1);
                assert(cmds.deep_view().len() == k + 1);
                assert forall|t: int| 0 <= t < k + 1 implies cmds.deep_view()[t] == target[t] by {
                    assert(target[t] == pfx.push(formulas.deep_view().subrange(0, k + 1 as int)[t]));
                    assert(formulas.deep_view().subrange(0, k + 1 as int)[t]
                        == formulas.deep_view()[t]);
                    if t < k {
                        assert(cmds.deep_view()[t] == cmds@[t].deep_view());
                        assert(cmds.deep_view()[t] == before[t]);
                        assert(before[t] == pfx.push(formulas.deep_view().subrange(0, k as int)[t]));
                        assert(formulas.deep_view().subrange(0, k as int)[t]
                            == formulas.deep_view()[t]);
                    } else {
                        assert(cmds.deep_view()[t] == cmds@[t].deep_view());
                        assert(cmds.deep_view()[t] == cv);
                    }
                }
                assert(cmds.deep_view() =~= target);
            }
            k = k + 1;
        }
        proof {
            assert(formulas.deep_view().subrange(0, n as int) =~= formulas.deep_view());
        }
        Ok(cmds)
    }

    /// Build one command per name: the verb, `--cask` where casks are
    /// meant, then the validated name.
    fn per_package(&self, verb: &str, cask: bool, names: &Vec<String>) -> (r: ShardResult<Vec<
        BrewCommand,
    >>)
        ensures
            r is Ok <==> (forall|i: int|
                0 <= i < names@.len() ==> valid_package_name(#[trigger] names@[i]@)),
            r matches Ok(cs) ==> cs.deep_view() == per_package_cmds(
                if cask {
                    seq![verb@, "--cask"@]
                } else {
                    seq![verb@]
                },
                names.deep_view(),
            ),
            r matches Err(e) ==> e matches ShardError::ValidationError(_),
    {
        let ghost prefix: Seq<Seq<char>> = if cask {
            seq![verb@, "--cask"@]
        } else {
            seq![verb@]
        };
        let n = names.len();
        let mut i: usize = 0;
        while i < n
            invariant
                0 <= i <= n,
                n == names@.len(),
                forall|j: int| 0 <= j < i ==> valid_package_name(#[trigger] names@[j]@),
            decreases n - i,
        {
            if !is_valid_package_name(names[i].as_str()) {
                return Err(ShardError::ValidationError(names[i].clone()));
            }
            i = i + 1;
        }
        let mut cmds: Vec<BrewCommand> = Vec::new();
        let mut k: usize = 0;
        proof {
            assert(cmds.deep_view() =~= per_package_cmds(
                prefix,
                names.deep_view().subrange(0, 0),
            ));
        }
        while k < n
            invariant
                0 <= k <= n,
                n == names@.len(),
                prefix == if cask {
                    seq![verb@, "--cask"@]
                } else {
                    seq![verb@]
                },
                cmds.deep_view() == per_package_cmds(prefix, names.deep_view().subrange(
                    0,
                    k as int,
                )),
            decreases n - k,
        {
            let mut cargs: Vec<String> = Vec::new();
            cargs.push(verb.to_owned());
            if cask {
                cargs.push("--cask".to_owned());
            }
            proof {
                assert(cargs.deep_view() =~= prefix);
            }
            cargs.push(names[k].clone());
            proof {
                assert(cargs.deep_view() =~= prefix.push(names.deep_view()[k as int]));
            }
            let ghost cv = cargs.deep_view();
            let ghost before = cmds.deep_view();
            let ghost before_raw = cmds@;
            let cmd = BrewCommand { args: cargs };
            let ghost cmdv = cmd;
            cmds.push(cmd);
            proof {
                let target = per_package_cmds(prefix, names.deep_view().subrange(
                    0,
                    k + 1 as int,
                ));
                assert(cmds@ == before_raw.push(cmdv));
                assert(before.len() == k);
                assert(before_raw.len() == k);
                assert(cmds@.len() == k + 1);
                assert(cmds.deep_view().len() == k + 1);
                assert forall|t: int| 0 <= t < k + 1 implies cmds.deep_view()[t] == target[t] by {
                    assert(target[t] == prefix.push(names.deep_view().subrange(0, k + 1 as int)[t]));
                    assert(names.deep_view().subrange(0, k + 1 as int)[t] == names.deep_view()[t]);
                    if t < k {
                        assert(cmds.deep_view()[t] == cmds@[t].deep_view());
                        assert(cmds.deep_view()[t] == before[t]);
                        assert(before[t] == prefix.push(names.deep_view().subrange(0, k as int)[t]));
                        assert(names.deep_view().subrange(0, k as int)[t] == names.deep_view()[t]);
                    } else {
                        assert(cmds.deep_view()[t] == cmds@[t].deep_view());
                        assert(cmds.deep_view()[t] == cv);
                    }
                }
                assert(cmds.deep_view() =~= target);
            }
            k = k + 1;
        }
        proof {
            assert(names.deep_view().subrange(0, n as int) =~= names.deep_view());
        }
        Ok(cmds)
    }

    /// The invocation that installs one formula with options.
    pub fn install_formula(&self, formula: &str, options: &Vec<String>) -> (r: ShardResult<
        BrewCommand,
    >)
        ensures
            r is Ok <==> valid_package_name(formula@) && (forall|i: int|
                0 <= i < options@.len() ==> valid_option(#[trigger] options@[i]@)),
            r matches Ok(c) ==> c@ == seq!["install"@, formula@] + options.deep_view(),
            r matches Err(e) ==> e matches ShardError::ValidationError(_),
    {
        let validated = validate_package_name(formula)?;
        validate_options(options)?;
        let mut args: Vec<String> = Vec::new();
        args.push("install".to_owned());
        args.push(validated.to_owned());
        proof {
            assert(args.deep_view() =~= seq!["install"@, formula@]);
        }
        extend_strings(&mut args, options);
        Ok(BrewCommand { args })
    }

    /// The invocation that installs one cask with options.
    pub fn install_cask(&self, cask: &str, options: &Vec<String>) -> (r: ShardResult<BrewCommand>)
        ensures
            r is Ok <==> valid_package_name(cask@) && (forall|i: int|
                0 <= i < options@.len() ==> valid_option(#[trigger] options@[i]@)),
            r matches Ok(c) ==> c@ == seq!["install"@, "--cask"@, cask@] + options.deep_view(),
            r matches Err(e) ==> e matches ShardError::ValidationError(_),
    {
        let validated = validate_package_name(cask)?;
        validate_options(options)?;
        let mut args: Vec<String> = Vec::new();
        args.push("install".to_owned());
        args.push("--cask".to_owned());
        args.push(validated.to_owned());
        proof {
            assert(args.deep_view() =~= seq!["install"@, "--cask"@, cask@]);
        }
        extend_strings(&mut args, options);
        Ok(BrewCommand { args })
    }

    /// The invocation that upgrades one formula with options.
    pub fn upgrade_formula_with_options(&self, formula: &str, options: &Vec<String>) -> (r:
        ShardResult<BrewCommand>)
        ensures
            r is Ok <==> valid_package_name(formula@) && (forall|i: int|
                0 <= i < options@.len() ==> valid_option(#[trigger] options@[i]@)),
            r matches Ok(c) ==> c@ == seq!["upgrade"@, formula@] + options.deep_view(),
            r matches Err(e) ==> e matches ShardError::ValidationError(_),
    {
        let validated = validate_package_name(formula)?;
        validate_options(options)?;
        let mut args: Vec<String> = Vec::new();
        args.push("upgrade".to_owned());
        args.push(validated.to_owned());
        proof {
            assert(args.deep_view() =~= seq!["upgrade"@, formula@]);
        }
        extend_strings(&mut args, options);
        Ok(BrewCommand { args })
    }

    /// The invocation that upgrades one cask with options.
    pub fn upgrade_cask_with_options(&self, cask: &str, options: &Vec<String>) -> (r: ShardResult<
        BrewCommand,
    >)
        ensures
            r is Ok <==> valid_package_name(cask@) && (forall|i: int|
                0 <= i < options@.len() ==> valid_option(#[trigger] options@[i]@)),
            r matches Ok(c) ==> c@ == seq!["upgrade"@, "--cask"@, cask@] + options.deep_view(),
            r matches Err(e) ==> e matches ShardError::ValidationError(_),
    {
        let validated = validate_package_name(cask)?;
        validate_options(options)?;
        let mut args: Vec<String> = Vec::new();
        args.push("upgrade".to_owned());
        args.push("--cask".to_owned());
        args.push(validated.to_owned());
        proof {
            assert(args.deep_view() =~= seq!["upgrade"@, "--cask"@, cask@]);
        }
        extend_strings(&mut args, options);
        Ok(BrewCommand { args })
    }

    /// The invocation that uninstalls one formula.
    pub fn uninstall_formula(&self, formula: &str, force: bool) -> (r: ShardResult<BrewCommand>)
        ensures
            r is Ok <==> valid_package_name(formula@),
            r matches Ok(c) ==> c@ == (if force {
                seq!["uninstall"@, "--formula"@, formula@, "--force"@]
            } else {
                seq!["uninstall"@, "--formula"@, formula@]
            }),
            r matches Err(e) ==> e matches ShardError::ValidationError(_),
    {
        let validated = validate_package_name(formula)?;
        let mut args: Vec<String> = Vec::new();
        args.push("uninstall".to_owned());
        args.push("--formula".to_owned());
        args.push(validated.to_owned());
        if force {
            args.push("--force".to_owned());
            proof {
                assert(args.deep_view() =~= seq![
                    "uninstall"@,
                    "--formula"@,
                    formula@,
                    "--force"@,
                ]);
            }
        } else {
            proof {
                assert(args.deep_view() =~= seq!["uninstall"@, "--formula"@, formula@]);
            }
        }
        Ok(BrewCommand { args })
    }

    /// The invocation that uninstalls one cask.
    pub fn uninstall_cask(&self, cask: &str, force: bool) -> (r: ShardResult<BrewCommand>)
        ensures
            r is Ok <==> valid_package_name(cask@),
            r matches Ok(c) ==> c@ == (if force {
                seq!["uninstall"@, "--cask"@, cask@, "--force"@]
            } else {
                seq!["uninstall"@, "--cask"@, cask@]
            }),
            r matches Err(e) ==> e matches ShardError::ValidationError(_),
    {
        let validated = validate_package_name(cask)?;
        let mut args: Vec<String> = Vec::new();
        args.push("uninstall".to_owned());
        args.push("--cask".to_owned());
        args.push(validated.to_owned());
        if force {
            args.push("--force".to_owned());
            proof {
                assert(args.deep_view() =~= seq!["uninstall"@, "--cask"@, cask@, "--force"@]);
            }
        } else {
            proof {
                assert(args.deep_view() =~= seq!["uninstall"@, "--cask"@, cask@]);
            }
        }
        Ok(BrewCommand { args })
    }

    /// The invocation that lists installed formulae.
    pub fn get_installed_formulae(&self) -> (r: BrewCommand)
        ensures
            r@ == seq!["list"@, "--formula"@],
    {
        let mut args: Vec<String> = Vec::new();
        args.push("list".to_owned());
        args.push("--formula".to_owned());
        let c = BrewCommand { args };
        proof {
            assert(c@ =~= seq!["list"@, "--formula"@]);
        }
        c
    }

    /// The invocation that lists installed casks.
    pub fn get_installed_casks(&self) -> (r: BrewCommand)
        ensures
            r@ == seq!["list"@, "--cask"@],
    {
        let mut args: Vec<String> = Vec::new();
        args.push("list".to_owned());
        args.push("--cask".to_owned());
        let c = BrewCommand { args };
        proof {
            assert(c@ =~= seq!["list"@, "--cask"@]);
        }
        c
    }

    /// The invocation that lists installed taps.
    pub fn get_installed_taps(&self) -> (r: BrewCommand)
        ensures
            r@ == seq!["tap"@],
    {
        let mut args: Vec<String> = Vec::new();
        args.push("tap".to_owned());
        let c = BrewCommand { args };
        proof {
            assert(c@ =~= seq!["tap"@]);
        }
        c
    }

    /// The invocation that lists the formulae installed only as
    /// dependencies.
    pub fn get_dependency_packages(&self) -> (r: BrewCommand)
        ensures
            r@ == seq!["list"@, "--installed-as-dependency"@],
    {
        let mut args: Vec<String> = Vec::new();
        args.push("list".to_owned());
        args.push("--installed-as-dependency".to_owned());
        let c = BrewCommand { args };
        proof {
            assert(c@ =~= seq!["list"@, "--installed-as-dependency"@]);
        }
        c
    }

    /// The invocation that prunes unused downloads and versions.
    pub fn cleanup(&self, prune_all: bool) -> (r: BrewCommand)
        ensures
            r@ == (if prune_all {
                seq!["cleanup"@, "--prune=all"@]
            } else {
                seq!["cleanup"@]
            }),
    {
        let mut args: Vec<String> = Vec::new();
        args.push("cleanup".to_owned());
        if prune_all {
            args.push("--prune=all".to_owned());
            proof {
                assert(args.deep_view() =~= seq!["cleanup"@, "--prune=all"@]);
            }
        } else {
            proof {
                assert(args.deep_view() =~= seq!["cleanup"@]);
            }
        }
        BrewCommand { args }
    }
}

/// A default installer.
pub fn get_installer() -> (r: BrewInstaller)
    ensures
        r.core.brew_path@ == "brew"@,
        r.core.debug == false,
        r.core.timeout is None,
{
    BrewInstaller::new()
}

/// The searcher plans discovery invocations; reading their output back is
/// the application's part.
#[derive(Debug)]
pub struct BrewSearcher {
    /// Shared actuator configuration.
    pub core: BrewCore,
}

impl BrewSearcher {
    /// A searcher over the default configuration.
    pub fn new() -> (r: BrewSearcher)
        ensures
            r.core.brew_path@ == "brew"@,
            r.core.debug == false,
            r.core.timeout is None,
    {
        BrewSearcher { core: BrewCore::new() }
    }

    /// A searcher over the given configuration.
    pub fn with_core(core: BrewCore) -> (r: BrewSearcher)
        ensures
            r.core == core,
    {
        BrewSearcher { core }
    }

    /// The invocation that searches for packages by name.
    pub fn search(&self, query: &str, formula_only: bool, cask_only: bool) -> (r: ShardResult<
        BrewCommand,
    >)
        ensures
            r is Ok <==> valid_search_query(query@),
            r matches Ok(c) ==> c@ == (if formula_only {
                seq!["search"@, "--formula"@, query@]
            } else if cask_only {
                seq!["search"@, "--cask"@, query@]
            } else {
                seq!["search"@, query@]
            }),
            r matches Err(e) ==> e matches ShardError::ValidationError(_),
    {
        let validated = validate_search_query(query)?;
        let mut args: Vec<String> = Vec::new();
        args.push("search".to_owned());
        if formula_only {
            args.push("--formula".to_owned());
        } else if cask_only {
            args.push("--cask".to_owned());
        }
        args.push(validated.to_owned());
        if formula_only {
            proof {
                assert(args.deep_view() =~= seq!["search"@, "--formula"@, query@]);
            }
        } else if cask_only {
            proof {
                assert(args.deep_view() =~= seq!["search"@, "--cask"@, query@]);
            }
        } else {
            proof {
                assert(args.deep_view() =~= seq!["search"@, query@]);
            }
        }
        Ok(BrewCommand { args })
    }
}

/// A default searcher.
pub fn get_searcher() -> (r: BrewSearcher)
    ensures
        r.core.brew_path@ == "brew"@,
        r.core.debug == false,
        r.core.timeout is None,
{
    BrewSearcher::new()
}

/// The invocation that lists installed formulae, on the default client.
pub fn get_installed_formulae() -> (r: BrewCommand)
    ensures
        r@ == seq!["list"@, "--formula"@],
{
    get_client().get_installed_formulae()
}

/// The invocation that lists installed casks, on the default client.
pub fn get_installed_casks() -> (r: BrewCommand)
    ensures
        r@ == seq!["list"@, "--cask"@],
{
    get_client().get_installed_casks()
}

/// The invocation that lists installed taps, on the default client.
pub fn get_installed_taps() -> (r: BrewCommand)
    ensures
        r@ == seq!["tap"@],
{
    get_client().get_installed_taps()
}

/// The invocation that lists dependency-only formulae, on the default
/// client.
pub fn get_dependency_packages() -> (r: BrewCommand)
    ensures
        r@ == seq!["list"@, "--installed-as-dependency"@],
{
    get_client().get_dependency_packages()
}

/// The invocation that registers a tap, on the default client.
pub fn add_tap(name: &str) -> (r: ShardResult<BrewCommand>)
    ensures
        r is Ok <==> valid_tap_name(name@),
        r matches Ok(c) ==> c@ == seq!["tap"@, name@],
        r matches Err(e) ==> e matches ShardError::ValidationError(_),
{
    get_client().add_tap(name)
}

/// The full-prune cleanup invocation, on the default client.
pub fn run_cleanup() -> (r: BrewCommand)
    ensures
        r@ == seq!["cleanup"@, "--prune=all"@],
{
    get_client().cleanup(true)
}

} // verus!
