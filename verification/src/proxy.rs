//! The allow-list of the filtering proxy used by `--net=allow`: which file
//! it comes from, its built-in default, and the argument the proxy process
//! receives.  Starting the proxy is the caller's work.

use vstd::prelude::*;
use crate::config::Loaded;
use crate::order::{sort_dedup, strictly_sorted};
use crate::text::{join_seqs, join_strings, push_arg, push_string, string_of, string_views};

verus! {

/// A `proxy.toml`.
pub struct ProxyConfig {
    pub domains: Vec<String>,
}

impl ProxyConfig {
    /// No domains.
    pub fn default() -> (r: ProxyConfig)
        ensures
            r.domains@.len() == 0,
    {
        ProxyConfig { domains: Vec::new() }
    }
}

/// The built-in allow-list used when no `proxy.toml` is found: the common
/// package registries and code hosts.
pub open spec fn default_domains() -> Seq<Seq<char>> {
    seq![
        "registry.npmjs.org"@, "npmjs.org"@, "nodejs.org"@,
        "pypi.org"@, "files.pythonhosted.org"@, "bootstrap.pypa.io"@,
        "crates.io"@, "static.crates.io"@, "index.crates.io"@,
        "github.com"@, "api.github.com"@, "raw.githubusercontent.com"@,
        "objects.githubusercontent.com"@, "codeload.github.com"@,
        "google.com"@, "www.google.com"@,
    ]
}

/// The configuration with the built-in allow-list.
pub fn builtin_config() -> (r: ProxyConfig)
    ensures
        string_views(r.domains@) == default_domains(),
{
    let mut d: Vec<String> = Vec::new();
    push_arg(&mut d, "registry.npmjs.org");
    push_arg(&mut d, "npmjs.org");
    push_arg(&mut d, "nodejs.org");
    push_arg(&mut d, "pypi.org");
    push_arg(&mut d, "files.pythonhosted.org");
    push_arg(&mut d, "bootstrap.pypa.io");
    push_arg(&mut d, "crates.io");
    push_arg(&mut d, "static.crates.io");
    push_arg(&mut d, "index.crates.io");
    push_arg(&mut d, "github.com");
    push_arg(&mut d, "api.github.com");
    push_arg(&mut d, "raw.githubusercontent.com");
    push_arg(&mut d, "objects.githubusercontent.com");
    push_arg(&mut d, "codeload.github.com");
    push_arg(&mut d, "google.com");
    push_arg(&mut d, "www.google.com");
    assert(string_views(d@) =~= default_domains());
    ProxyConfig { domains: d }
}

/// The allow-list a file stands for, when it exists: the parsed one, or
/// none when it could not be read or parsed.
pub open spec fn file_domains(file: Loaded<ProxyConfig>) -> Seq<Seq<char>> {
    match file {
        Loaded::Parsed(c) => string_views(c.domains@),
        _ => seq![],
    }
}

/// The allow-list of a run: from the project's `proxy.toml` when it
/// exists, else from `~/.config/lion/proxy.toml` when it exists, else the
/// built-in list.
pub open spec fn chosen_domains(local: Loaded<ProxyConfig>, global: Loaded<ProxyConfig>) -> Seq<Seq<char>> {
    if !(local is Missing) {
        file_domains(local)
    } else if !(global is Missing) {
        file_domains(global)
    } else {
        default_domains()
    }
}

fn from_file(file: Loaded<ProxyConfig>) -> (r: ProxyConfig)
    ensures
        string_views(r.domains@) == file_domains(file),
{
    match file {
        Loaded::Parsed(c) => c,
        _ => {
            let r = ProxyConfig::default();
            assert(string_views(r.domains@) =~= Seq::<Seq<char>>::empty());
            r
        },
    }
}

/// The proxy configuration of a run, from what came of the project's and
/// the global `proxy.toml`.
pub fn load_config(local: Loaded<ProxyConfig>, global: Loaded<ProxyConfig>) -> (r: ProxyConfig)
    ensures
        string_views(r.domains@) == chosen_domains(local, global),
{
    match local {
        Loaded::Missing => match global {
            Loaded::Missing => builtin_config(),
            _ => from_file(global),
        },
        _ => from_file(local),
    }
}

/// The domains the proxy lets through: those of `--domain` and those of the
/// configuration, sorted, each once.
pub fn final_domains(allowed: &Vec<String>, cfg: &ProxyConfig) -> (r: Vec<String>)
    ensures
        strictly_sorted(string_views(r@)),
        forall|x: Seq<char>| string_views(r@).contains(x) <==> (string_views(allowed@).contains(x)
            || string_views(cfg.domains@).contains(x)),
{
    let mut all: Vec<String> = Vec::new();
    let mut i: usize = 0;
    while i < allowed.len()
        invariant
            i <= allowed.len(),
            string_views(all@) == string_views(allowed@.take(i as int)),
        decreases allowed.len() - i,
    {
        push_string(&mut all, allowed[i].clone());
        proof {
            assert(string_views(allowed@.take(i + 1)) =~= string_views(allowed@.take(i as int)).push(allowed@[i as int]@));
        }
        i += 1;
    }
    let mut j: usize = 0;
    while j < cfg.domains.len()
        invariant
            j <= cfg.domains.len(),
            string_views(all@) == string_views(allowed@.take(allowed.len() as int)) + string_views(cfg.domains@.take(j as int)),
        decreases cfg.domains.len() - j,
    {
        push_string(&mut all, cfg.domains[j].clone());
        proof {
            assert(string_views(cfg.domains@.take(j + 1)) =~= string_views(cfg.domains@.take(j as int)).push(cfg.domains@[j as int]@));
        }
        j += 1;
    }
    proof {
        assert(allowed@.take(allowed.len() as int) =~= allowed@);
        assert(cfg.domains@.take(cfg.domains.len() as int) =~= cfg.domains@);
        let a = string_views(allowed@);
        let b = string_views(cfg.domains@);
        assert(string_views(all@) =~= a + b);
        assert forall|x: Seq<char>| (a + b).contains(x) <==> (a.contains(x) || b.contains(x)) by {
            if (a + b).contains(x) {
                let k = choose|k: int| 0 <= k < (a + b).len() && #[trigger] (a + b)[k] == x;
                if k < a.len() {
                    assert(a[k] == x);
                } else {
                    assert(b[k - a.len()] == x);
                }
            }
            if a.contains(x) {
                let k = choose|k: int| 0 <= k < a.len() && #[trigger] a[k] == x;
                assert((a + b)[k] == x);
            }
            if b.contains(x) {
                let k = choose|k: int| 0 <= k < b.len() && #[trigger] b[k] == x;
                assert((a + b)[k + a.len()] == x);
            }
        }
    }
    sort_dedup(&all)
}

/// The allow-list argument of the proxy process: `*` lets everything
/// through, `BLOCK_ALL` (which matches no domain) blocks everything, and
/// otherwise the domains joined with commas.
pub open spec fn domain_arg_spec(domains: Seq<Seq<char>>) -> Seq<char> {
    if domains.contains("*"@) {
        "*"@
    } else if domains.len() == 0 {
        "BLOCK_ALL"@
    } else {
        join_seqs(domains, ","@)
    }
}

/// The allow-list argument of the proxy process.
pub fn domain_arg(domains: &Vec<String>) -> (r: String)
    ensures
        r@ == domain_arg_spec(string_views(domains@)),
{
    let star = String::from_str("*");
    if crate::sandbox_engine::runner::contains_name(domains, &star) {
        star
    } else if domains.len() == 0 {
        String::from_str("BLOCK_ALL")
    } else {
        let v = join_strings(domains, ",");
        string_of(v.as_slice())
    }
}

} // verus!
