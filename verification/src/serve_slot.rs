//! Which serve cycle an endpoint is in, and who may stop it.
//!
//! Each call of `serve` starts a cycle with a token of its own. The endpoint holds
//! one cycle at a time; what is done to the cycle is addressed by its token, so a
//! handle that comes late never reaches a cycle that has taken its place.
use vstd::prelude::*;

verus! {

/// Identity of one serve cycle on an endpoint.
#[derive(Clone, Copy, Debug, PartialEq, Eq, Structural)]
pub struct ServeToken {
    value: u64,
}

impl ServeToken {
    /// The number of the cycle.
    pub closed spec fn number(self) -> u64 {
        self.value
    }

    pub fn new(value: u64) -> (r: Self)
        ensures
            r.number() == value,
    {
        ServeToken { value }
    }

    pub fn get(self) -> (r: u64)
        ensures
            r == self.number(),
    {
        self.value
    }
}

/// Tokens with the same number are the same token.
pub proof fn tokens_by_number(a: ServeToken, b: ServeToken)
    ensures
        a == b <==> a.number() == b.number(),
{
}

// ── The handle of a cycle ────────────────────────────────────────────────────

/// The control state of one serve cycle, shared by all who hold its handle.
#[derive(Clone, Copy, Debug)]
pub struct ServeHandle {
    pub token: ServeToken,
    pub drain_timeout_ms: u64,
    /// Whether the accept task is attached.
    pub attached: bool,
    pub abort_requested: bool,
    pub shutdown_requested: bool,
    /// Whether the cycle's connections are to be closed.
    pub close_flag: bool,
}

/// What becomes of an accept task that is attached to its cycle.
#[derive(Clone, Copy, Debug, PartialEq, Eq, Structural)]
pub enum AttachAction {
    /// The task is kept.
    Keep,
    /// The task is aborted before it can run: an abort came first.
    Abort,
}

/// How the end of a cycle is waited for.
#[derive(Clone, Copy, Debug, PartialEq, Eq, Structural)]
pub enum DrainWait {
    /// Join the accept task.
    Join,
    /// The task is not attached: wait for the signal that the loop is done.
    DoneSignal,
}

impl ServeHandle {
    /// A cycle whose accept task has not been started.
    pub fn pending(token: ServeToken, drain_timeout_ms: u64) -> (r: Self)
        ensures
            r == (ServeHandle {
                token,
                drain_timeout_ms,
                attached: false,
                abort_requested: false,
                shutdown_requested: false,
                close_flag: false,
            }),
    {
        ServeHandle {
            token,
            drain_timeout_ms,
            attached: false,
            abort_requested: false,
            shutdown_requested: false,
            close_flag: false,
        }
    }

    /// Attaches the accept task. If an abort came first, the task is aborted.
    pub fn attach_join(&mut self) -> (r: AttachAction)
        ensures
            old(self).abort_requested ==> r == AttachAction::Abort && *final(self) == *old(self),
            !old(self).abort_requested ==> r == AttachAction::Keep && *final(self) == (ServeHandle {
                attached: true,
                ..*old(self)
            }),
    {
        if self.abort_requested {
            AttachAction::Abort
        } else {
            self.attached = true;
            AttachAction::Keep
        }
    }

    /// Whether two handles control the same cycle.
    pub fn is_same_cycle(&self, other: &ServeHandle) -> (r: bool)
        ensures
            r == (self.token == other.token),
    {
        self.token == other.token
    }

    /// Whether the cycle was told to stop.
    pub fn is_shutdown_requested(&self) -> (r: bool)
        ensures
            r == self.shutdown_requested,
    {
        self.shutdown_requested
    }

    /// Tells the loop to stop: accept nothing new, drain, then close.
    pub fn shutdown(&mut self)
        ensures
            *final(self) == (ServeHandle { shutdown_requested: true, ..*old(self) }),
    {
        self.shutdown_requested = true;
    }

    /// Tells the loop to stop and its connections to close at once.
    pub fn shutdown_and_close(&mut self)
        ensures
            *final(self) == (ServeHandle {
                shutdown_requested: true,
                close_flag: true,
                ..*old(self)
            }),
    {
        self.shutdown_requested = true;
        self.close_flag = true;
    }

    /// Tells the loop to stop, and says how to wait for its end. An attached task
    /// is taken out, so only one caller joins it.
    pub fn drain(&mut self) -> (r: DrainWait)
        ensures
            *final(self) == (ServeHandle { shutdown_requested: true, attached: false, ..*old(self) }),
            r == (if old(self).attached {
                DrainWait::Join
            } else {
                DrainWait::DoneSignal
            }),
    {
        self.shutdown();
        if self.attached {
            self.attached = false;
            DrainWait::Join
        } else {
            DrainWait::DoneSignal
        }
    }

    /// Ends the cycle without a drain. Says whether there is a task to abort now;
    /// a task that is attached later is aborted then.
    pub fn abort(&mut self) -> (r: bool)
        ensures
            *final(self) == (ServeHandle { abort_requested: true, ..*old(self) }),
            r == old(self).attached,
    {
        self.abort_requested = true;
        self.attached
    }

    /// The drain window in milliseconds.
    pub fn drain_timeout(&self) -> (r: u64)
        ensures
            r == self.drain_timeout_ms,
    {
        self.drain_timeout_ms
    }
}

// ── The endpoint's slot ──────────────────────────────────────────────────────

/// The serve cycle that an endpoint is in.
#[derive(Clone, Copy, Debug)]
pub struct ServeSlot {
    /// The cycle, if there is one.
    pub current: Option<ServeToken>,
    /// The cycle whose service answers requests of the node to itself.
    pub local_service: Option<ServeToken>,
    /// The number of the last token that was given out.
    pub started: u64,
    /// The number of the last token that was told to stop. For diagnostics only.
    pub stopped: u64,
    /// Whether the endpoint is closed.
    pub closed: bool,
}

/// What becomes of a cycle that is being registered.
#[derive(Clone, Copy, Debug, PartialEq, Eq, Structural)]
pub enum Registered {
    /// It is the current cycle already.
    AlreadyCurrent,
    /// It is now the current cycle. The one whose place it has taken, if any, is
    /// to be shut down and its connections closed.
    Installed { replaced: Option<ServeToken> },
}

/// A step of closing an endpoint.
#[derive(Clone, Copy, Debug, PartialEq, Eq, Structural)]
pub enum CloseStep {
    /// Stop this cycle and wait for its end.
    DrainServe(ServeToken),
    /// End this cycle without a drain.
    AbortServe(ServeToken),
    /// Stop the resolver proxies.
    StopDnsProxies,
    /// Let no service answer requests of the node to itself.
    ClearLocalService,
    /// Close the transport.
    CloseTransport,
    /// Tell whoever waits for it that the endpoint is closed.
    SignalClosed,
}

/// The steps of a graceful close: handlers may need the resolver until they are
/// done, and the resolver needs the transport.
pub open spec fn graceful_close(cycle: Option<ServeToken>) -> Seq<CloseStep> {
    (match cycle {
        Some(t) => seq![CloseStep::DrainServe(t)],
        None => Seq::<CloseStep>::empty(),
    }) + seq![
        CloseStep::StopDnsProxies,
        CloseStep::ClearLocalService,
        CloseStep::CloseTransport,
        CloseStep::SignalClosed,
    ]
}

/// The steps of an immediate close.
pub open spec fn forced_close(cycle: Option<ServeToken>) -> Seq<CloseStep> {
    seq![CloseStep::StopDnsProxies] + (match cycle {
        Some(t) => seq![CloseStep::AbortServe(t)],
        None => Seq::<CloseStep>::empty(),
    }) + seq![CloseStep::ClearLocalService, CloseStep::CloseTransport, CloseStep::SignalClosed]
}

impl ServeSlot {
    /// While there is a current cycle, requests of the node to itself go to it or
    /// nowhere.
    pub open spec fn wf(&self) -> bool {
        self.current is Some && self.local_service is Some ==> self.local_service == self.current
    }

    /// An endpoint that has not served.
    pub fn new() -> (r: Self)
        ensures
            r.wf(),
            r.current is None,
            r.local_service is None,
            r.started == 0,
            r.stopped == 0,
            !r.closed,
    {
        ServeSlot { current: None, local_service: None, started: 0, stopped: 0, closed: false }
    }

    /// The token of a new cycle.
    pub fn next_serve_token(&mut self) -> (r: ServeToken)
        requires
            old(self).wf(),
        ensures
            r.number() == (if old(self).started == u64::MAX {
                0
            } else {
                old(self).started + 1
            }),
            *final(self) == (ServeSlot { started: r.number(), ..*old(self) }),
            final(self).wf(),
    {
        self.started = self.started.wrapping_add(1);
        ServeToken::new(self.started)
    }

    /// Makes a new cycle the current one. Requests of the node to itself go nowhere
    /// until the new cycle's service is set.
    pub fn register_serve_handle(&mut self, token: ServeToken) -> (r: Registered)
        requires
            old(self).wf(),
        ensures
            final(self).wf(),
            old(self).current == Some(token) ==> r == Registered::AlreadyCurrent && *final(self)
                == *old(self),
            old(self).current != Some(token) ==> {
                &&& r == (Registered::Installed { replaced: old(self).current })
                &&& *final(self) == (ServeSlot {
                    current: Some(token),
                    local_service: None,
                    ..*old(self)
                })
            },
    {
        let previous: Option<ServeToken> = self.current;
        if let Some(t) = previous {
            if t == token {
                return Registered::AlreadyCurrent;
            }
        }
        self.local_service = None;
        self.current = Some(token);
        Registered::Installed { replaced: previous }
    }

    /// Confirms a handle that was handed back. Says whether its cycle is to be shut
    /// down and its connections closed: a handle of another cycle than the current
    /// one came late. The current cycle is left alone in any case.
    pub fn set_serve_handle(&self, token: ServeToken) -> (r: bool)
        ensures
            r == (self.current != Some(token)),
    {
        match self.current {
            Some(t) => t != token,
            None => true,
        }
    }

    /// Tells the current cycle to stop. Gives its token, for whose cycle the
    /// shutdown is to be requested.
    pub fn stop_serve(&mut self) -> (r: Option<ServeToken>)
        requires
            old(self).wf(),
        ensures
            final(self).wf(),
            r == old(self).current,
            *final(self) == (ServeSlot {
                local_service: None,
                stopped: match r {
                    Some(t) => t.number(),
                    None => old(self).stopped,
                },
                ..*old(self)
            }),
    {
        self.local_service = None;
        if let Some(t) = self.current {
            self.stopped = t.get();
        }
        self.current
    }

    /// Lets a cycle's service answer requests of the node to itself, but only while
    /// the cycle is the current one and was not told to stop.
    pub fn set_local_service_for(&mut self, token: ServeToken, shutdown_requested: bool) -> (r:
        bool)
        requires
            old(self).wf(),
        ensures
            final(self).wf(),
            r == (old(self).current == Some(token) && !shutdown_requested),
            r ==> *final(self) == (ServeSlot { local_service: Some(token), ..*old(self) }),
            !r ==> *final(self) == *old(self),
    {
        let is_current: bool = match self.current {
            Some(t) => t == token,
            None => false,
        };
        if is_current && !shutdown_requested {
            self.local_service = Some(token);
            true
        } else {
            false
        }
    }

    /// Lets no service answer requests of the node to itself.
    pub fn clear_local_service(&mut self)
        requires
            old(self).wf(),
        ensures
            final(self).wf(),
            *final(self) == (ServeSlot { local_service: None, ..*old(self) }),
    {
        self.local_service = None;
    }

    /// The cycle whose service answers requests of the node to itself.
    pub fn local_service(&self) -> (r: Option<ServeToken>)
        ensures
            r == self.local_service,
    {
        self.local_service
    }

    /// Marks the endpoint as closed.
    pub fn signal_closed(&mut self)
        requires
            old(self).wf(),
        ensures
            final(self).wf(),
            *final(self) == (ServeSlot { closed: true, ..*old(self) }),
    {
        self.closed = true;
    }

    /// Begins a graceful close, and gives its steps.
    pub fn close(&mut self) -> (r: Vec<CloseStep>)
        requires
            old(self).wf(),
        ensures
            final(self).wf(),
            r@ == graceful_close(old(self).current),
            *final(self) == (ServeSlot { current: None, ..*old(self) }),
    {
        let mut steps: Vec<CloseStep> = Vec::new();
        if let Some(t) = self.current {
            steps.push(CloseStep::DrainServe(t));
        }
        steps.push(CloseStep::StopDnsProxies);
        steps.push(CloseStep::ClearLocalService);
        steps.push(CloseStep::CloseTransport);
        steps.push(CloseStep::SignalClosed);
        proof {
            assert(steps@ =~= graceful_close(self.current));
        }
        self.current = None;
        steps
    }

    /// Begins an immediate close, and gives its steps.
    pub fn close_force(&mut self) -> (r: Vec<CloseStep>)
        requires
            old(self).wf(),
        ensures
            final(self).wf(),
            r@ == forced_close(old(self).current),
            *final(self) == (ServeSlot { current: None, ..*old(self) }),
    {
        let mut steps: Vec<CloseStep> = Vec::new();
        steps.push(CloseStep::StopDnsProxies);
        if let Some(t) = self.current {
            steps.push(CloseStep::AbortServe(t));
        }
        steps.push(CloseStep::ClearLocalService);
        steps.push(CloseStep::CloseTransport);
        steps.push(CloseStep::SignalClosed);
        proof {
            assert(steps@ =~= forced_close(self.current));
        }
        self.current = None;
        steps
    }
}

/// In either way of closing, the transport is closed after everything that uses it
/// was stopped, and the close is signalled last. A graceful close drains first, so
/// handlers can resolve names until they are done.
pub proof fn transport_closes_last(cycle: Option<ServeToken>)
    ensures
        graceful_close(cycle).last() == CloseStep::SignalClosed,
        forced_close(cycle).last() == CloseStep::SignalClosed,
        graceful_close(cycle)[graceful_close(cycle).len() - 2] == CloseStep::CloseTransport,
        forced_close(cycle)[forced_close(cycle).len() - 2] == CloseStep::CloseTransport,
        cycle matches Some(t) ==> graceful_close(cycle)[0] == CloseStep::DrainServe(t)
            && graceful_close(cycle)[1] == CloseStep::StopDnsProxies,
{
}

/// What a close does, in order: it drains or aborts the cycle where there is one, stops the
/// proxies, lets go of the local service, closes the transport and tells of it. Each is
/// done once, and nothing else is.
pub proof fn closes_do_everything_once(t: ServeToken)
    ensures
        graceful_close(None) == seq![
            CloseStep::StopDnsProxies,
            CloseStep::ClearLocalService,
            CloseStep::CloseTransport,
            CloseStep::SignalClosed,
        ],
        graceful_close(Some(t)) == seq![CloseStep::DrainServe(t)] + graceful_close(None),
        forced_close(None) == graceful_close(None),
        forced_close(Some(t)) == seq![
            CloseStep::StopDnsProxies,
            CloseStep::AbortServe(t),
            CloseStep::ClearLocalService,
            CloseStep::CloseTransport,
            CloseStep::SignalClosed,
        ],
{
    assert(graceful_close(None) =~= seq![
        CloseStep::StopDnsProxies,
        CloseStep::ClearLocalService,
        CloseStep::CloseTransport,
        CloseStep::SignalClosed,
    ]);
    assert(forced_close(None) =~= graceful_close(None));
    assert(graceful_close(Some(t)) =~= seq![CloseStep::DrainServe(t)] + graceful_close(None));
    assert(forced_close(Some(t)) =~= seq![
        CloseStep::StopDnsProxies,
        CloseStep::AbortServe(t),
        CloseStep::ClearLocalService,
        CloseStep::CloseTransport,
        CloseStep::SignalClosed,
    ]);
}

} // verus!
