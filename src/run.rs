use vstd::prelude::*;

use crate::analyzer::{analyze_diff, bounded_diff};
use crate::config::SmartCommitConfig;
use crate::diff_hasher::{fingerprint, generate_diff_hash};
use crate::error::Error;
use crate::formatter::{format_commit_message, formatted};
use crate::repository::CommitMessage;
use crate::text::{chars_of, copy_range, string_of};

use vstd::string::StringExecFns;

verus! {

/// The backend chosen by the configuration.
#[derive(Debug, PartialEq)]
pub enum ProviderChoice {
    Gemini,
    /// The local daemon, at the given address.
    Ollama(String),
}

fn same_text(a: &str, b: &str) -> (r: bool)
    ensures
        r == (a@ == b@),
{
    String::from_str(a) == String::from_str(b)
}

/// Picks the backend named by the configuration: `gemini`, or `ollama`, which
/// needs an address; any other name is a configuration error.
pub fn select_provider(provider: &str, ollama_url: Option<String>) -> (r: Result<
    ProviderChoice,
    Error,
>)
    ensures
        provider@ == "gemini"@ ==> r matches Ok(ProviderChoice::Gemini),
        provider@ == "ollama"@ ==> match ollama_url {
            Some(u) => r matches Ok(ProviderChoice::Ollama(v)) && v@ == u@,
            None => r matches Err(Error::Config(m)) && m@ == "Ollama URL not configured"@,
        },
        provider@ != "gemini"@ && provider@ != "ollama"@ ==> (r matches Err(Error::Config(m))
            && m@ == "Unsupported AI provider '"@ + provider@ + "'"@),
{
    proof {
        reveal_strlit("gemini");
        reveal_strlit("ollama");
        assert("gemini"@[0] != "ollama"@[0]);
    }
    if same_text(provider, "gemini") {
        Ok(ProviderChoice::Gemini)
    } else if same_text(provider, "ollama") {
        match ollama_url {
            Some(u) => Ok(ProviderChoice::Ollama(u)),
            None => Err(Error::Config(String::from_str("Ollama URL not configured"))),
        }
    } else {
        Err(
            Error::Config(
                String::from_str("Unsupported AI provider '").concat(provider).concat("'"),
            ),
        )
    }
}

/// For a path written `~/rest`, the part `rest` to be taken from the home directory.
pub fn home_relative_part(path: &str) -> (r: Option<String>)
    ensures
        (path@.len() >= 2 && path@[0] == '~' && path@[1] == '/') ==> (r matches Some(s) && s@
            == path@.skip(2)),
        !(path@.len() >= 2 && path@[0] == '~' && path@[1] == '/') ==> r is None,
{
    let cs = chars_of(path);
    let n = cs.len();
    if n >= 2 && cs[0] == '~' && cs[1] == '/' {
        let rest = copy_range(&cs, 2, n);
        assert(cs@.subrange(2, n as int) =~= path@.skip(2));
        Some(string_of(rest))
    } else {
        None
    }
}

/// Where a run stands.
#[derive(Debug, PartialEq, Eq, Structural, Clone, Copy)]
pub enum Phase {
    /// Waiting for the cache lookup.
    AwaitLookup,
    /// Waiting for the provider's reply.
    AwaitReply,
    /// Waiting for the cache write.
    AwaitStore,
    /// Done: the last step emitted a message or reported a failure.
    Finished,
}

/// What the outside world reports back to a run.
#[derive(Debug)]
pub enum Event {
    /// The cache held a message for the key.
    CacheHit(CommitMessage),
    /// The cache held nothing live for the key.
    CacheMiss,
    /// The cache could not be read, or its entry not decoded.
    CacheFailed(Error),
    /// The provider produced a message.
    Replied(CommitMessage),
    /// The provider failed.
    ProviderFailed(Error),
    /// The cache write succeeded.
    Stored,
    /// The cache write failed.
    StoreFailed(Error),
}

/// What a run asks the outside world to do next.
#[derive(Debug)]
pub enum Step {
    /// Look the key up in the cache.
    LookUp(String),
    /// Ask the provider to analyze this text.
    Invoke(String),
    /// Write this message to the cache under the key.
    Store(String, CommitMessage),
    /// Print this commit message; the run is over.
    Emit(String),
    /// Report this error; the run is over.
    Fail(Error),
}

/// Whether a run in `phase` can take `e`.
pub open spec fn accepts(phase: Phase, e: Event) -> bool {
    match phase {
        Phase::AwaitLookup => e is CacheHit || e is CacheMiss || e is CacheFailed,
        Phase::AwaitReply => e is Replied || e is ProviderFailed,
        Phase::AwaitStore => e is Stored || e is StoreFailed,
        Phase::Finished => false,
    }
}

/// One generation of a commit message: bound the diff, fingerprint it, consult
/// the cache if there is one, call the provider on a miss, fill the cache, and
/// format the result. Cache failures never end a run.
pub struct Run {
    phase: Phase,
    key: String,
    diff: String,
    template: String,
    use_cache: bool,
    pending: String,
    calls: Ghost<nat>,
}

impl Run {
    #[verifier::type_invariant]
    spec fn consistent(&self) -> bool {
        &&& (self.phase == Phase::AwaitLookup ==> self.calls@ == 0 && self.use_cache)
        &&& (self.phase == Phase::AwaitReply ==> self.calls@ == 1)
        &&& (self.phase == Phase::AwaitStore ==> self.calls@ == 1 && self.use_cache)
        &&& self.calls@ <= 1
    }

    /// Where the run stands.
    pub closed spec fn phase(&self) -> Phase {
        self.phase
    }

    /// The text analyzed: the diff after bounding its size.
    pub closed spec fn analyzed(&self) -> Seq<char> {
        self.diff@
    }

    /// The cache key: the fingerprint of the analyzed text.
    pub closed spec fn key(&self) -> Seq<char> {
        self.key@
    }

    /// The template the message is formatted with.
    pub closed spec fn template(&self) -> Seq<char> {
        self.template@
    }

    /// Whether a cache is in use.
    pub closed spec fn uses_cache(&self) -> bool {
        self.use_cache
    }

    /// The formatted message waiting for the cache write to finish.
    pub closed spec fn pending(&self) -> Seq<char> {
        self.pending@
    }

    /// How many times the run has asked for the provider.
    pub closed spec fn provider_calls(&self) -> nat {
        self.calls@
    }

    /// Starts a run on a staged diff. The diff is bounded to the configured
    /// number of lines before it is fingerprinted, so the key covers exactly
    /// the text that is analyzed.
    pub fn start(diff: &str, smart_commit: &SmartCommitConfig, template: &str, use_cache: bool) -> (r: (
        Run,
        Step,
    ))
        ensures
            r.0.analyzed() == bounded_diff(diff@, smart_commit.line_threshold as nat),
            r.0.key() == fingerprint(r.0.analyzed()),
            r.0.template() == template@,
            r.0.uses_cache() == use_cache,
            use_cache ==> (r.0.phase() == Phase::AwaitLookup && r.0.provider_calls() == 0 && (
            r.1 matches Step::LookUp(k) && k@ == r.0.key())),
            !use_cache ==> (r.0.phase() == Phase::AwaitReply && r.0.provider_calls() == 1 && (
            r.1 matches Step::Invoke(d) && d@ == r.0.analyzed())),
    {
        let processed = analyze_diff(diff, smart_commit);
        let key = generate_diff_hash(processed.as_str());
        let t = String::from_str(template);
        if use_cache {
            let step = Step::LookUp(key.clone());
            (
                Run {
                    phase: Phase::AwaitLookup,
                    key,
                    diff: processed,
                    template: t,
                    use_cache,
                    pending: String::new(),
                    calls: Ghost(0),
                },
                step,
            )
        } else {
            let step = Step::Invoke(processed.clone());
            (
                Run {
                    phase: Phase::AwaitReply,
                    key,
                    diff: processed,
                    template: t,
                    use_cache,
                    pending: String::new(),
                    calls: Ghost(1),
                },
                step,
            )
        }
    }

    /// Where the run stands.
    pub fn current_phase(&self) -> (r: Phase)
        ensures
            r == self.phase(),
    {
        self.phase
    }

    /// Whether the run can take `e` now.
    pub fn accepts(&self, e: &Event) -> (r: bool)
        ensures
            r == accepts(self.phase(), *e),
    {
        match self.phase {
            Phase::AwaitLookup => match e {
                Event::CacheHit(_) | Event::CacheMiss | Event::CacheFailed(_) => true,
                _ => false,
            },
            Phase::AwaitReply => match e {
                Event::Replied(_) | Event::ProviderFailed(_) => true,
                _ => false,
            },
            Phase::AwaitStore => match e {
                Event::Stored | Event::StoreFailed(_) => true,
                _ => false,
            },
            Phase::Finished => false,
        }
    }

    /// Takes what the outside world reports and says what to do next. A cache
    /// miss or a cache failure leads to exactly one request to the provider and
    /// never ends the run; a failed cache write is ignored.
    pub fn step(&mut self, e: Event) -> (r: Step)
        requires
            accepts(old(self).phase(), e),
        ensures
            final(self).analyzed() == old(self).analyzed(),
            final(self).key() == old(self).key(),
            final(self).template() == old(self).template(),
            final(self).uses_cache() == old(self).uses_cache(),
            final(self).provider_calls() <= 1,
            match e {
                Event::CacheHit(m) => r matches Step::Emit(t) && t@ == formatted(
                    m@,
                    old(self).template(),
                ) && final(self).phase() == Phase::Finished && final(self).provider_calls() == 0,
                Event::CacheMiss | Event::CacheFailed(_) => r matches Step::Invoke(d) && d@
                    == old(self).analyzed() && final(self).phase() == Phase::AwaitReply
                    && old(self).provider_calls() == 0 && final(self).provider_calls() == 1,
                Event::Replied(m) => final(self).provider_calls() == 1 && if old(self).uses_cache() {
                    r matches Step::Store(k, m2) && k@ == old(self).key() && m2@ == m@
                        && final(self).phase() == Phase::AwaitStore && final(self).pending()
                        == formatted(m@, old(self).template())
                } else {
                    r matches Step::Emit(t) && t@ == formatted(m@, old(self).template())
                        && final(self).phase() == Phase::Finished
                },
                Event::ProviderFailed(err) => r matches Step::Fail(f) && f == err
                    && final(self).phase() == Phase::Finished,
                Event::Stored | Event::StoreFailed(_) => r matches Step::Emit(t) && t@ == old(
                    self,
                ).pending() && final(self).phase() == Phase::Finished
                    && final(self).provider_calls() == 1,
            },
    {
        proof {
            use_type_invariant(&*self);
        }
        match e {
            Event::CacheHit(m) => {
                let text = format_commit_message(&m, self.template.as_str());
                self.phase = Phase::Finished;
                Step::Emit(text)
            },
            Event::CacheMiss | Event::CacheFailed(_) => {
                *self = Run {
                    phase: Phase::AwaitReply,
                    key: self.key.clone(),
                    diff: self.diff.clone(),
                    template: self.template.clone(),
                    use_cache: self.use_cache,
                    pending: self.pending.clone(),
                    calls: Ghost(1),
                };
                Step::Invoke(self.diff.clone())
            },
            Event::Replied(m) => {
                let text = format_commit_message(&m, self.template.as_str());
                if self.use_cache {
                    self.pending = text;
                    self.phase = Phase::AwaitStore;
                    Step::Store(self.key.clone(), m)
                } else {
                    self.phase = Phase::Finished;
                    Step::Emit(text)
                }
            },
            Event::ProviderFailed(err) => {
                self.phase = Phase::Finished;
                Step::Fail(err)
            },
            Event::Stored | Event::StoreFailed(_) => {
                self.phase = Phase::Finished;
                Step::Emit(self.pending.clone())
            },
        }
    }
}

} // verus!
