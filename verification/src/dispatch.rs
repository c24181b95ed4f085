//! The dispatcher's decision core: queues of pending work and the
//! rules that feed the handler and the background worker one task at
//! a time.

use vstd::prelude::*;

verus! {

/// An editor request, with its payload carried as opaque text.
pub struct RequestMsg {
    pub id: i64,
    pub method: String,
    pub params: String,
}

impl Clone for RequestMsg {
    fn clone(&self) -> (r: Self)
        ensures
            r == *self,
    {
        RequestMsg { id: self.id, method: self.method.clone(), params: self.params.clone() }
    }
}

/// An editor notification.
pub struct NotificationMsg {
    pub method: String,
    pub params: String,
}

/// An editor response to a server-initiated request.
pub struct ResponseMsg {
    pub id: i64,
    pub payload: String,
}

/// Work for the background worker or the handler.
pub enum WorkItem {
    /// Fast-scan the library folders.
    ScanPath(Vec<String>),
    /// Full-scan the workspace folders.
    ScanWorkspace(Vec<String>),
    /// Re-extract the open files.
    ScanOpen,
}

/// What the dispatcher hands to the handler.
pub enum HandlerTask {
    Notification(NotificationMsg),
    Response(ResponseMsg),
    Request(RequestMsg),
    Work(WorkItem),
}

/// The dispatcher's queues and the idleness of its two workers.
pub struct DispatchState {
    pub notifications: Vec<NotificationMsg>,
    pub responses: Vec<ResponseMsg>,
    pub requests: Vec<RequestMsg>,
    pub handler_queue: Vec<WorkItem>,
    pub bw_queue: Vec<WorkItem>,
    pub handler_idle: bool,
    pub bw_idle: bool,
}

/// The handler took the oldest notification.
pub open spec fn took_notification(
    pre: DispatchState,
    post: DispatchState,
    r: Option<HandlerTask>,
) -> bool {
    &&& r == Some(HandlerTask::Notification(pre.notifications@[0]))
    &&& post.notifications@ == pre.notifications@.skip(1)
    &&& post.responses == pre.responses
    &&& post.requests == pre.requests
    &&& post.handler_queue == pre.handler_queue
    &&& !post.handler_idle
}

/// The handler took the oldest response.
pub open spec fn took_response(
    pre: DispatchState,
    post: DispatchState,
    r: Option<HandlerTask>,
) -> bool {
    &&& r == Some(HandlerTask::Response(pre.responses@[0]))
    &&& post.responses@ == pre.responses@.skip(1)
    &&& post.notifications == pre.notifications
    &&& post.requests == pre.requests
    &&& post.handler_queue == pre.handler_queue
    &&& !post.handler_idle
}

/// The handler took the oldest request.
pub open spec fn took_request(
    pre: DispatchState,
    post: DispatchState,
    r: Option<HandlerTask>,
) -> bool {
    &&& r == Some(HandlerTask::Request(pre.requests@[0]))
    &&& post.requests@ == pre.requests@.skip(1)
    &&& post.notifications == pre.notifications
    &&& post.responses == pre.responses
    &&& post.handler_queue == pre.handler_queue
    &&& !post.handler_idle
}

/// The handler took the oldest queued work item.
pub open spec fn took_handler_work(
    pre: DispatchState,
    post: DispatchState,
    r: Option<HandlerTask>,
) -> bool {
    &&& r == Some(HandlerTask::Work(pre.handler_queue@[0]))
    &&& post.handler_queue@ == pre.handler_queue@.skip(1)
    &&& post.notifications == pre.notifications
    &&& post.responses == pre.responses
    &&& post.requests == pre.requests
    &&& !post.handler_idle
}

/// The background worker took its oldest work item.
pub open spec fn took_bw_work(
    pre: DispatchState,
    post: DispatchState,
    r: Option<WorkItem>,
) -> bool {
    &&& r == Some(pre.bw_queue@[0])
    &&& post.bw_queue@ == pre.bw_queue@.skip(1)
    &&& post.notifications == pre.notifications
    &&& post.responses == pre.responses
    &&& post.requests == pre.requests
    &&& post.handler_queue == pre.handler_queue
    &&& post.handler_idle == pre.handler_idle
    &&& !post.bw_idle
}

impl DispatchState {
    pub fn new() -> (r: DispatchState)
        ensures
            r.notifications@.len() == 0,
            r.responses@.len() == 0,
            r.requests@.len() == 0,
            r.handler_queue@.len() == 0,
            r.bw_queue@.len() == 0,
            r.handler_idle,
            !r.bw_idle,
    {
        DispatchState {
            notifications: Vec::new(),
            responses: Vec::new(),
            requests: Vec::new(),
            handler_queue: Vec::new(),
            bw_queue: Vec::new(),
            handler_idle: true,
            bw_idle: false,
        }
    }

    /// Feeds the idle handler its next task: the oldest pending
    /// notification first, else response, else request, else queued
    /// work. A busy handler, or empty queues, yield nothing.
    pub fn next_handler_task(&mut self) -> (r: Option<HandlerTask>)
        ensures
            !old(self).handler_idle ==> r is None && *final(self) == *old(self),
            old(self).handler_idle && old(self).notifications@.len() > 0 ==> took_notification(
                *old(self),
                *final(self),
                r,
            ),
            old(self).handler_idle && old(self).notifications@.len() == 0 && old(
                self,
            ).responses@.len() > 0 ==> took_response(*old(self), *final(self), r),
            old(self).handler_idle && old(self).notifications@.len() == 0 && old(
                self,
            ).responses@.len() == 0 && old(self).requests@.len() > 0 ==> took_request(
                *old(self),
                *final(self),
                r,
            ),
            old(self).handler_idle && old(self).notifications@.len() == 0 && old(
                self,
            ).responses@.len() == 0 && old(self).requests@.len() == 0 && old(
                self,
            ).handler_queue@.len() > 0 ==> took_handler_work(*old(self), *final(self), r),
            old(self).handler_idle && old(self).notifications@.len() == 0 && old(
                self,
            ).responses@.len() == 0 && old(self).requests@.len() == 0 && old(
                self,
            ).handler_queue@.len() == 0 ==> r is None && *final(self) == *old(self),
            final(self).bw_queue == old(self).bw_queue,
            final(self).bw_idle == old(self).bw_idle,
    {
        if !self.handler_idle {
            return None;
        }
        if self.notifications.len() > 0 {
            let ghost q0 = self.notifications@;
            let msg = self.notifications.remove(0);
            proof {
                assert(self.notifications@ =~= q0.skip(1));
            }
            self.handler_idle = false;
            return Some(HandlerTask::Notification(msg));
        }
        if self.responses.len() > 0 {
            let ghost q0 = self.responses@;
            let msg = self.responses.remove(0);
            proof {
                assert(self.responses@ =~= q0.skip(1));
            }
            self.handler_idle = false;
            return Some(HandlerTask::Response(msg));
        }
        if self.requests.len() > 0 {
            let ghost q0 = self.requests@;
            let msg = self.requests.remove(0);
            proof {
                assert(self.requests@ =~= q0.skip(1));
            }
            self.handler_idle = false;
            return Some(HandlerTask::Request(msg));
        }
        if self.handler_queue.len() > 0 {
            let ghost q0 = self.handler_queue@;
            let w = self.handler_queue.remove(0);
            proof {
                assert(self.handler_queue@ =~= q0.skip(1));
            }
            self.handler_idle = false;
            return Some(HandlerTask::Work(w));
        }
        None
    }

    /// Feeds the idle background worker its next work item; a busy
    /// worker, or an empty queue, yields nothing.
    pub fn next_bw_task(&mut self) -> (r: Option<WorkItem>)
        ensures
            !old(self).bw_idle || old(self).bw_queue@.len() == 0 ==> r is None && *final(self)
                == *old(self),
            old(self).bw_idle && old(self).bw_queue@.len() > 0 ==> took_bw_work(
                *old(self),
                *final(self),
                r,
            ),
    {
        if !self.bw_idle {
            return None;
        }
        if self.bw_queue.len() > 0 {
            let ghost q0 = self.bw_queue@;
            let w = self.bw_queue.remove(0);
            proof {
                assert(self.bw_queue@ =~= q0.skip(1));
            }
            self.bw_idle = false;
            return Some(w);
        }
        None
    }

    /// Drops the not-yet-started request with the given id;
    /// in-flight work cannot be cancelled.
    pub fn cancel_request(&mut self, id: i64)
        ensures
            final(self).requests@ == old(self).requests@.filter(|m: RequestMsg| m.id != id),
            final(self).notifications == old(self).notifications,
            final(self).responses == old(self).responses,
            final(self).handler_queue == old(self).handler_queue,
            final(self).bw_queue == old(self).bw_queue,
            final(self).handler_idle == old(self).handler_idle,
            final(self).bw_idle == old(self).bw_idle,
    {
        let ghost f = |m: RequestMsg| m.id != id;
        let ghost orig = self.requests@;
        let mut i: usize = 0;
        let ghost mut k: int = 0;
        while i < self.requests.len()
            invariant
                f == (|m: RequestMsg| m.id != id),
                0 <= k <= orig.len(),
                i == orig.subrange(0, k).filter(f).len(),
                self.requests@ =~= orig.subrange(0, k).filter(f) + orig.subrange(
                    k,
                    orig.len() as int,
                ),
                self.requests@.len() == i + orig.len() - k,
                self.notifications == old(self).notifications,
                self.responses == old(self).responses,
                self.handler_queue == old(self).handler_queue,
                self.bw_queue == old(self).bw_queue,
                self.handler_idle == old(self).handler_idle,
                self.bw_idle == old(self).bw_idle,
            decreases self.requests@.len() - i,
        {
            let ghost pre = orig.subrange(0, k);
            proof {
                assert(orig.subrange(0, k + 1) =~= pre.push(orig[k]));
                crate::symbols::lemma_filter_push(pre, orig[k], f);
                assert(self.requests@[i as int] == orig[k]);
            }
            let keep = self.requests[i].id != id;
            proof {
                assert(keep == f(orig[k]));
            }
            if keep {
                i = i + 1;
                proof {
                    k = k + 1;
                    assert(orig.subrange(0, k).filter(f) =~= pre.filter(f).push(orig[k - 1]));
                    assert(self.requests@ =~= orig.subrange(0, k).filter(f) + orig.subrange(
                        k,
                        orig.len() as int,
                    ));
                }
            } else {
                let _ = self.requests.remove(i);
                proof {
                    k = k + 1;
                    assert(orig.subrange(0, k).filter(f) =~= pre.filter(f));
                    assert(self.requests@ =~= orig.subrange(0, k).filter(f) + orig.subrange(
                        k,
                        orig.len() as int,
                    ));
                }
            }
        }
        proof {
            assert(orig.subrange(0, k) =~= orig);
            assert(orig.subrange(k, orig.len() as int) =~= Seq::<RequestMsg>::empty());
            assert(self.requests@ =~= orig.filter(f));
        }
    }

    /// Marks the handler idle again after a finished task.
    pub fn handler_done(&mut self)
        ensures
            *final(self) == (DispatchState { handler_idle: true, ..*old(self) }),
    {
        self.handler_idle = true;
    }

    /// Marks the background worker idle again.
    pub fn bw_done(&mut self)
        ensures
            *final(self) == (DispatchState { bw_idle: true, ..*old(self) }),
    {
        self.bw_idle = true;
    }

    /// Queues an inbound notification.
    pub fn push_notification(&mut self, msg: NotificationMsg)
        ensures
            *final(self) == (DispatchState {
                notifications: final(self).notifications,
                ..*old(self)
            }),
            final(self).notifications@ == old(self).notifications@.push(msg),
    {
        self.notifications.push(msg);
    }

    /// Queues an inbound response.
    pub fn push_response(&mut self, msg: ResponseMsg)
        ensures
            *final(self) == (DispatchState { responses: final(self).responses, ..*old(self) }),
            final(self).responses@ == old(self).responses@.push(msg),
    {
        self.responses.push(msg);
    }

    /// Queues an inbound request.
    pub fn push_request(&mut self, msg: RequestMsg)
        ensures
            *final(self) == (DispatchState { requests: final(self).requests, ..*old(self) }),
            final(self).requests@ == old(self).requests@.push(msg),
    {
        self.requests.push(msg);
    }

    /// Queues work for the handler.
    pub fn push_handler_work(&mut self, w: WorkItem)
        ensures
            *final(self) == (DispatchState {
                handler_queue: final(self).handler_queue,
                ..*old(self)
            }),
            final(self).handler_queue@ == old(self).handler_queue@.push(w),
    {
        self.handler_queue.push(w);
    }

    /// Queues work for the background worker.
    pub fn push_bw_work(&mut self, w: WorkItem)
        ensures
            *final(self) == (DispatchState { bw_queue: final(self).bw_queue, ..*old(self) }),
            final(self).bw_queue@ == old(self).bw_queue@.push(w),
    {
        self.bw_queue.push(w);
    }
}

} // verus!
