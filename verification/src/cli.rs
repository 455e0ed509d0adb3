//! What the command line asks for.
use crate::types::CryptoHash;
use vstd::prelude::*;

verus! {

/// What is logged if nothing else is asked for.
pub const DEFAULT_RUST_LOG: &'static str = "tokio_reactor=info,near=info,stats=info,telemetry=info,delay_detector=info,near-performance-metrics=info,near-rust-allocator-proxy=info,warn";

/// How thoroughly the genesis is looked through at startup.
#[derive(Debug, Clone, Copy, PartialEq, Eq, Structural)]
pub enum GenesisValidationMode {
    Full,
    UnsafeFast,
}

/// The mode in which the genesis is looked through, given whether startup is to
/// be fast at the cost of safety.
pub fn genesis_validation(unsafe_fast_startup: bool) -> (m: GenesisValidationMode)
    ensures
        m == if unsafe_fast_startup {
            GenesisValidationMode::UnsafeFast
        } else {
            GenesisValidationMode::Full
        },
{
    if unsafe_fast_startup {
        GenesisValidationMode::UnsafeFast
    } else {
        GenesisValidationMode::Full
    }
}

/// What is logged: what `base` lets through, as changed by each of `directives`
/// in turn.
pub struct LogFilter {
    pub base: String,
    pub directives: Vec<String>,
}

/// The directives that verbose logging begins with: they keep the chattiest
/// libraries quiet.
pub open spec fn quiet_directives() -> Seq<Seq<char>> {
    seq![
        "cranelift_codegen=warn"@,
        "cranelift_codegen=warn"@,
        "h2=warn"@,
        "trust_dns_resolver=warn"@,
        "trust_dns_proto=warn"@,
    ]
}

/// The directive that logs all there is of `target`, or of all targets if that
/// is "debug" or empty.
pub open spec fn verbose_directive(target: Seq<char>) -> Seq<char> {
    if target.len() == 0 || target == "debug"@ {
        "debug"@
    } else {
        target + "=debug"@
    }
}

/// What the directives say.
pub open spec fn texts(directives: Seq<String>) -> Seq<Seq<char>> {
    directives.map_values(|s: String| s@)
}

/// What is logged, given what the environment asks for and the target of verbose
/// logging.
pub fn log_filter(rust_log: Option<String>, verbose: Option<String>) -> (f: LogFilter)
    ensures
        f.base@ == match rust_log {
            Some(s) => s@,
            None => DEFAULT_RUST_LOG@,
        },
        texts(f.directives@) == match verbose {
            Some(target) => quiet_directives().push(verbose_directive(target@)),
            None => Seq::empty(),
        },
        verbose is None ==> f.directives@.len() == 0,
        verbose matches Some(target) ==> f.directives@.len() == 6 && f.directives@[0]@
            == "cranelift_codegen=warn"@ && f.directives@[1]@ == "cranelift_codegen=warn"@
            && f.directives@[2]@ == "h2=warn"@ && f.directives@[3]@ == "trust_dns_resolver=warn"@
            && f.directives@[4]@ == "trust_dns_proto=warn"@ && f.directives@[5]@
            == verbose_directive(target@),
{
    let base = match rust_log {
        Some(s) => s,
        None => DEFAULT_RUST_LOG.to_owned(),
    };
    let mut directives: Vec<String> = Vec::new();
    if let Some(target) = verbose {
        directives.push("cranelift_codegen=warn".to_owned());
        directives.push("cranelift_codegen=warn".to_owned());
        directives.push("h2=warn".to_owned());
        directives.push("trust_dns_resolver=warn".to_owned());
        directives.push("trust_dns_proto=warn".to_owned());
        let debug = "debug".to_owned();
        let empty = "".to_owned();
        proof {
            reveal_strlit("");
            assert(target@.len() == 0 ==> target@ =~= empty@);
        }
        if target == empty || target == debug {
            directives.push(debug);
        } else {
            let mut directive = target;
            directive.append("=debug");
            directives.push(directive);
        }
        assert(texts(directives@) =~= quiet_directives().push(verbose_directive(target@)));
    } else {
        assert(texts(directives@) =~= Seq::empty());
    }
    LogFilter { base, directives }
}

/// What `near_primitives::hash::CryptoHash` reads from a text: the bytes of a
/// hash, or what is wrong with the text.
pub uninterp spec fn parsed_hash(text: Seq<char>) -> Result<Seq<u8>, Seq<char>>;

/// Calls `from_str` of `near_primitives::hash::CryptoHash`, which decodes a hash
/// from base 58. The result depends on the text alone, and has a name.
#[verifier::external_body]
fn parse_hash(text: &String) -> (r: Result<CryptoHash, String>)
    ensures
        parsed_hash(text@) == match r {
            Ok(hash) => Ok(hash.0@),
            Err(e) => Err(e@),
        },
{
    match text.parse::<near_primitives::hash::CryptoHash>() {
        Ok(hash) => Ok(CryptoHash(hash.0)),
        Err(e) => Err(e.to_string()),
    }
}

/// Why a command cannot be run.
pub enum CmdError {
    /// The start block hash is no hash, for this reason.
    BadHash(String),
    /// There is no directory to cache the configuration in.
    NoCacheDir,
}

impl CmdError {
    /// What the error says.
    pub open spec fn text(self) -> Seq<char> {
        match self {
            CmdError::BadHash(e) => e@,
            CmdError::NoCacheDir => "dirs::cache_dir() = None"@,
        }
    }

    pub fn to_string(&self) -> (s: String)
        ensures
            s@ == self.text(),
    {
        match self {
            CmdError::BadHash(e) => e.clone(),
            CmdError::NoCacheDir => "dirs::cache_dir() = None".to_owned(),
        }
    }
}

/// The command line: a chain, and the hash of the block to start from.
pub struct Cmd {
    pub chain_id: String,
    pub start_block_hash: String,
}

/// What a command comes down to.
pub struct Plan<P> {
    pub start_block_hash: CryptoHash,
    pub cache_dir: P,
    /// The names that lead from there to the configuration.
    pub config_dir: Vec<String>,
}

impl Cmd {
    /// What the command comes down to, given what its hash was read as.
    pub open spec fn planned<P>(
        self,
        parsed: Result<Seq<u8>, Seq<char>>,
        cache_dir: Option<P>,
        r: Result<Plan<P>, CmdError>,
    ) -> bool {
        match parsed {
            Err(e) => r matches Err(CmdError::BadHash(t)) && t@ == e,
            Ok(bytes) => match cache_dir {
                None => r matches Err(x) && x is NoCacheDir,
                Some(dir) => r matches Ok(p) && p.start_block_hash.0@ == bytes && p.cache_dir
                    == dir && texts(p.config_dir@) == seq!["near_configs"@, self.chain_id@],
            },
        }
    }

    /// What the command comes down to: where to start, and where the
    /// configuration of its chain is kept.
    pub fn plan<P>(&self, cache_dir: Option<P>) -> (r: Result<Plan<P>, CmdError>)
        ensures
            self.planned(parsed_hash(self.start_block_hash@), cache_dir, r),
    {
        self.plan_with(parse_hash(&self.start_block_hash), cache_dir)
    }

    /// The same, given what the hash was read as.
    pub fn plan_with<P>(&self, parsed: Result<CryptoHash, String>, cache_dir: Option<P>) -> (r:
        Result<Plan<P>, CmdError>)
        ensures
            self.planned(
                match parsed {
                    Ok(hash) => Ok(hash.0@),
                    Err(e) => Err(e@),
                },
                cache_dir,
                r,
            ),
    {
        match parsed {
            Err(e) => Err(CmdError::BadHash(e)),
            Ok(start_block_hash) => match cache_dir {
                None => Err(CmdError::NoCacheDir),
                Some(cache_dir) => {
                    let mut config_dir: Vec<String> = Vec::new();
                    config_dir.push("near_configs".to_owned());
                    config_dir.push(self.chain_id.clone());
                    assert(texts(config_dir@) =~= seq!["near_configs"@, self.chain_id@]);
                    Ok(Plan { start_block_hash, cache_dir, config_dir })
                },
            },
        }
    }
}

/// Verbose logging is of all there is if its target is "debug" or empty, and of the
/// target otherwise; the chattiest libraries are kept quiet in either case, and what
/// is asked for comes last.
pub proof fn verbose_logging_is_of_its_target(target: Seq<char>)
    ensures
        target.len() == 0 ==> verbose_directive(target) == "debug"@,
        verbose_directive("debug"@) == "debug"@,
        target.len() > 0 && target != "debug"@ ==> verbose_directive(target) == target + "=debug"@,
        quiet_directives().len() == 5,
        quiet_directives()[0] == "cranelift_codegen=warn"@,
        quiet_directives()[1] == "cranelift_codegen=warn"@,
        quiet_directives()[2] == "h2=warn"@,
        quiet_directives()[3] == "trust_dns_resolver=warn"@,
        quiet_directives()[4] == "trust_dns_proto=warn"@,
{
}

/// A text that is no hash is refused with what is wrong with it; without a cache
/// directory a command is refused too; otherwise it starts from the hash, and its
/// configuration is under the chain's name in the cache.
pub proof fn a_command_comes_down_to_its_plan<P>(
    c: Cmd,
    bytes: Seq<u8>,
    e: Seq<char>,
    dir: P,
    r: Result<Plan<P>, CmdError>,
)
    ensures
        forall|d: Option<P>| #[trigger]
            c.planned(Err(e), d, r) ==> (r matches Err(x) && x is BadHash && x.text() == e),
        c.planned(Ok(bytes), None, r) ==> (r matches Err(x) && x is NoCacheDir && x.text()
            == "dirs::cache_dir() = None"@),
        c.planned(Ok(bytes), Some(dir), r) ==> (r matches Ok(p) && p.start_block_hash.0@ == bytes
            && p.cache_dir == dir && p.config_dir@.len() == 2 && p.config_dir@[0]@
            == "near_configs"@ && p.config_dir@[1]@ == c.chain_id@),
{
    if c.planned(Ok(bytes), Some(dir), r) {
        let p = r->Ok_0;
        assert(texts(p.config_dir@).len() == 2);
        assert(texts(p.config_dir@)[0] == p.config_dir@[0]@);
        assert(texts(p.config_dir@)[1] == p.config_dir@[1]@);
    }
}

} // verus!
