//! A backend that tries other backends in sequence: the first success is the
//! answer, and when all fail, the last error is.

use vstd::prelude::*;
use crate::env::Environment;
use crate::envvar;
use crate::errors::Error;
use crate::http::Outcome;
use crate::secretfile::{Secretfile, SecretfileView};
use crate::table::lookup;
use crate::vault::{self, receives, resolves, ClientView, Fetch, Lookup};

verus! {

/// One of the backends a chain can hold.
#[derive(Debug)]
pub enum Backend {
    /// Environment variables and local files.
    Env(envvar::Client),
    /// The remote store.
    Vault(vault::Client),
}

/// A backend, as values.
pub enum BackendView {
    Env,
    Vault(ClientView),
}

impl View for Backend {
    type V = BackendView;

    open spec fn view(&self) -> BackendView {
        match self {
            Backend::Env(_) => BackendView::Env,
            Backend::Vault(c) => BackendView::Vault(c@),
        }
    }
}

/// The name of a backend.
pub open spec fn backend_name(b: BackendView) -> Seq<char> {
    match b {
        BackendView::Env => "env"@,
        BackendView::Vault(_) => "vault"@,
    }
}

impl Backend {
    /// A store backend keeps its cache in order.
    pub open spec fn wf(&self) -> bool {
        match self {
            Backend::Env(_) => true,
            Backend::Vault(c) => c.wf(),
        }
    }

    /// The name of this backend.
    pub fn name(&self) -> (r: &'static str)
        ensures
            r@ == backend_name(self@),
    {
        match self {
            Backend::Env(c) => c.name(),
            Backend::Vault(c) => c.name(),
        }
    }
}

/// What one backend makes of a credential: an answer or a secret to fetch,
/// or, for a file of the environment backend, the local file to read.
#[derive(Debug)]
pub enum Attempt {
    Resolved(Lookup),
    ReadFile,
}

/// What the backend `b` makes of the variable `name`.
pub open spec fn var_attempt(b: BackendView, sf: SecretfileView, env: Seq<(Seq<char>, Seq<char>)>, name: Seq<char>, r: Attempt) -> bool {
    match b {
        BackendView::Env => match lookup(env, name) {
            Some(v) => r matches Attempt::Resolved(Lookup::Done(Ok(s))) && s@ == v,
            None => r matches Attempt::Resolved(Lookup::Done(Err(Error::UndefinedEnvironmentVariable { name: n }))) && n@ == name,
        },
        BackendView::Vault(c) => r matches Attempt::Resolved(l) && resolves(c, name, lookup(sf.vars, name), l),
    }
}

/// What the backend `b` makes of the file `path`.
pub open spec fn file_attempt(b: BackendView, sf: SecretfileView, path: Seq<char>, r: Attempt) -> bool {
    match b {
        BackendView::Env => r is ReadFile,
        BackendView::Vault(c) => r matches Attempt::Resolved(l) && resolves(c, path, lookup(sf.files, path), l),
    }
}

/// Fetches credentials from other backends, in the order they were added.
#[derive(Debug)]
pub struct Client {
    backends: Vec<Backend>,
}

impl View for Client {
    type V = Seq<BackendView>;

    closed spec fn view(&self) -> Seq<BackendView> {
        self.backends@.map_values(|b: Backend| b@)
    }
}

impl Client {
    /// Every backend is well formed.
    pub closed spec fn wf(&self) -> bool {
        forall|i: int| 0 <= i < self.backends@.len() ==> (#[trigger] self.backends@[i]).wf()
    }

    /// A chain without backends.
    pub fn new() -> (r: Client)
        ensures
            r@ == Seq::<BackendView>::empty(),
            r.wf(),
    {
        let r = Client { backends: Vec::new() };
        assert(r@ =~= Seq::<BackendView>::empty());
        r
    }

    /// Adds `backend` after the others.
    pub fn add(&mut self, backend: Backend)
        requires
            old(self).wf(),
            backend.wf(),
        ensures
            final(self)@ == old(self)@.push(backend@),
            final(self).wf(),
    {
        self.backends.push(backend);
        assert(self@ =~= old(self)@.push(backend@));
    }

    /// The standard chain: when the remote store is configured (`vault`),
    /// the environment first if it may override the store, then the store;
    /// otherwise the environment alone.
    pub fn with_default_backends(allow_override: bool, vault: Option<vault::Client>) -> (r: Client)
        requires
            vault matches Some(v) ==> v.wf(),
        ensures
            r.wf(),
            r@ == match vault {
                Some(v) => if allow_override {
                    seq![BackendView::Env, BackendView::Vault(v@)]
                } else {
                    seq![BackendView::Vault(v@)]
                },
                None => seq![BackendView::Env],
            },
    {
        let mut client = Client::new();
        match vault {
            Some(v) => {
                if allow_override {
                    client.add(Backend::Env(envvar::Client));
                }
                client.add(Backend::Vault(v));
            },
            None => {
                client.add(Backend::Env(envvar::Client));
            },
        }
        client
    }

    /// How many backends the chain holds.
    pub fn len(&self) -> (r: usize)
        ensures
            r == self@.len(),
    {
        self.backends.len()
    }

    /// The names of the backends, in order.
    pub fn names(&self) -> (r: Vec<&'static str>)
        ensures
            r@.len() == self@.len(),
            forall|j: int| 0 <= j < r@.len() ==> (#[trigger] r@[j])@ == backend_name(self@[j]),
    {
        let mut out: Vec<&'static str> = Vec::new();
        let mut i: usize = 0;
        while i < self.backends.len()
            invariant
                i <= self.backends@.len(),
                out@.len() == i,
                forall|j: int| 0 <= j < i ==> (#[trigger] out@[j])@ == backend_name(self@[j]),
            decreases self.backends@.len() - i,
        {
            out.push(self.backends[i].name());
            i = i + 1;
        }
        out
    }

    /// What backend `i` makes of the variable `credential`.
    pub fn var_at(&self, i: usize, secretfile: &Secretfile, env: &Environment, credential: &str) -> (r: Attempt)
        requires
            self.wf(),
            i < self@.len(),
        ensures
            var_attempt(self@[i as int], secretfile@, env@, credential@, r),
    {
        match &self.backends[i] {
            Backend::Env(c) => Attempt::Resolved(Lookup::Done(c.var(env, credential))),
            Backend::Vault(c) => Attempt::Resolved(c.var(secretfile, credential)),
        }
    }

    /// What backend `i` makes of the file `path`.
    pub fn file_at(&self, i: usize, secretfile: &Secretfile, path: &str) -> (r: Attempt)
        requires
            self.wf(),
            i < self@.len(),
        ensures
            file_attempt(self@[i as int], secretfile@, path@, r),
    {
        match &self.backends[i] {
            Backend::Env(_) => Attempt::ReadFile,
            Backend::Vault(c) => Attempt::Resolved(c.file(secretfile, path)),
        }
    }

    /// Hands the reply to `fetch` to backend `i`, the store that asked for it.
    pub fn receive_at(&mut self, i: usize, fetch: Fetch, outcome: Outcome) -> (r: Result<String, Error>)
        requires
            old(self).wf(),
            i < old(self)@.len(),
            match old(self)@[i as int] {
                BackendView::Vault(c) => lookup(c.secrets, fetch.path@) is None,
                _ => false,
            },
        ensures
            final(self).wf(),
            final(self)@.len() == old(self)@.len(),
            forall|j: int| 0 <= j < old(self)@.len() && j != i ==> final(self)@[j] == old(self)@[j],
            match (old(self)@[i as int], final(self)@[i as int]) {
                (BackendView::Vault(c), BackendView::Vault(d)) => receives(c, d, fetch, outcome, r),
                _ => false,
            },
    {
        let ghost before = self.backends@;
        let b = self.backends.remove(i);
        assert(before[i as int] == b);
        assert(before[i as int].wf());
        match b {
            Backend::Vault(mut c) => {
                let r = c.receive(fetch, outcome);
                self.backends.insert(i, Backend::Vault(c));
                assert forall|j: int| 0 <= j < old(self)@.len() && j != i implies self@[j] == old(self)@[j] by {
                    if j < i {
                        assert(self.backends@[j] == old(self).backends@[j]);
                    } else {
                        assert(self.backends@[j] == old(self).backends@[j]);
                    }
                }
                r
            },
            Backend::Env(c) => {
                self.backends.insert(i, Backend::Env(c));
                Err(Error::NoBackend)
            },
        }
    }
}

/// What to do next in a chain.
#[derive(Debug)]
pub enum Step {
    /// Ask the backend at this position.
    Attempt(usize),
    /// The answer.
    Finish(Result<String, Error>),
}

/// The backend being asked and the next step, after backend `current` of
/// `count` answered `outcome`.
pub open spec fn record_step(count: nat, current: nat, outcome: Result<String, Error>) -> (nat, Step) {
    match outcome {
        Ok(_) => (current, Step::Finish(outcome)),
        Err(_) => if current + 1 < count {
            ((current + 1) as nat, Step::Attempt((current + 1) as usize))
        } else {
            (current, Step::Finish(outcome))
        },
    }
}

/// What a resolution answers once the backends from `current` on have
/// answered `outcomes`, in order; `None` while it has not finished.
pub open spec fn drive(count: nat, current: nat, outcomes: Seq<Result<String, Error>>) -> Option<Result<String, Error>>
    decreases outcomes.len(),
{
    if outcomes.len() == 0 {
        None
    } else {
        match record_step(count, current, outcomes[0]) {
            (_, Step::Finish(r)) => Some(r),
            (next, Step::Attempt(_)) => drive(count, next, outcomes.drop_first()),
        }
    }
}

/// The first success among `outcomes`, or else the last failure; with no
/// outcome at all, that no backend is available.
pub open spec fn chain_answer(outcomes: Seq<Result<String, Error>>) -> Result<String, Error>
    decreases outcomes.len(),
{
    if outcomes.len() == 0 {
        Err(Error::NoBackend)
    } else if outcomes[0] is Ok || outcomes.len() == 1 {
        outcomes[0]
    } else {
        chain_answer(outcomes.drop_first())
    }
}

/// A chain of backends, each asked in order until one succeeds, answers the
/// first success, or the last failure when every backend fails.
pub proof fn lemma_first_success_or_last_error(count: nat, current: nat, outcomes: Seq<Result<String, Error>>)
    requires
        current < count,
        outcomes.len() == count - current,
    ensures
        drive(count, current, outcomes) == Some(chain_answer(outcomes)),
    decreases outcomes.len(),
{
    if outcomes[0] is Err && current + 1 < count {
        lemma_first_success_or_last_error(count, (current + 1) as nat, outcomes.drop_first());
    }
}

/// The progress of one resolution through a chain of `count` backends.
#[derive(Debug)]
pub struct Fallback {
    count: usize,
    current: usize,
}

impl View for Fallback {
    type V = (nat, nat);

    /// How many backends there are, and which one is being asked.
    closed spec fn view(&self) -> (nat, nat) {
        (self.count as nat, self.current as nat)
    }
}

impl Fallback {
    /// A resolution through `count` backends.
    pub fn new(count: usize) -> (r: Fallback)
        ensures
            r@ == (count as nat, 0nat),
    {
        Fallback { count, current: 0 }
    }

    /// The first step: ask the first backend, or fail when there is none.
    pub fn first(&self) -> (r: Step)
        ensures
            self@.0 == 0 ==> r matches Step::Finish(Err(Error::NoBackend)),
            self@.0 > 0 ==> r == Step::Attempt(self@.1 as usize),
    {
        if self.count == 0 {
            Step::Finish(Err(Error::NoBackend))
        } else {
            Step::Attempt(self.current)
        }
    }

    /// Takes in what the backend being asked answered: a success ends the
    /// resolution; a failure passes on to the next backend, or, from the
    /// last one, ends it with that failure.
    pub fn record(&mut self, outcome: Result<String, Error>) -> (r: Step)
        requires
            old(self)@.1 < old(self)@.0,
        ensures
            final(self)@.0 == old(self)@.0,
            (final(self)@.1, r) == record_step(old(self)@.0, old(self)@.1, outcome),
    {
        match outcome {
            Ok(v) => Step::Finish(Ok(v)),
            Err(e) => {
                if self.current + 1 < self.count {
                    self.current = self.current + 1;
                    Step::Attempt(self.current)
                } else {
                    Step::Finish(Err(e))
                }
            },
        }
    }
}

} // verus!
