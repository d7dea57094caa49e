//! Rolling a chat back to where a restore takes the files, as dialogues with the runtime.
//!
//! As with git, each dialogue is a function of the replies so far. A reply is a thread, or an
//! error text; the thread in the reply to a resume is not looked at.
use crate::json::Json;
use crate::layout_store::is_visible;
use crate::lines::equal_ignoring_case;
use crate::number::decimal_usize;
use crate::text::{concat, concat3, contains, owned};
use crate::turns::{build_trimmed_thread_view, IsoTimes};
use vstd::prelude::*;
#[allow(unused_imports)]
use crate::json::{field_items, field_str, tree, JsonTree};
#[allow(unused_imports)]
use crate::lines::ascii_lower;
#[allow(unused_imports)]
use crate::number::{decimal, lemma_decimal_text};
#[allow(unused_imports)]
use crate::text::{contains_text, str_option, trimmed};
#[allow(unused_imports)]
use crate::turns::{
    from_then_on, lemma_cut, lemma_cut_count, lemma_cut_target, stays, trimmed_thread, CutModel,
};

verus! {

/// The model that a thread is resumed with.
pub const RESUME_MODEL: &'static str = "gpt-5.3-codex";

pub open spec fn names_opencode(kind: Seq<char>) -> bool {
    ascii_lower(kind) == ascii_lower("opencode"@)
}

/// Whether a runtime is an OpenCode one.
pub fn is_opencode_backend(backend_kind: &str) -> (r: bool)
    ensures
        r == names_opencode(backend_kind@),
{
    equal_ignoring_case(backend_kind, "opencode")
}

// ---------------------------------------------------------------------------------------------
// Replies and questions
// ---------------------------------------------------------------------------------------------
pub open spec fn thread_reply(r: Result<Json, String>) -> Result<JsonTree, Seq<char>> {
    match r {
        Ok(j) => Ok(tree(j)),
        Err(s) => Err(s@),
    }
}

pub open spec fn thread_replies(
    replies: Seq<Result<Json, String>>,
) -> Seq<Result<JsonTree, Seq<char>>> {
    Seq::new(replies.len(), |i: int| thread_reply(replies[i]))
}

/// What the runtime is asked.
#[derive(Clone, Copy, Debug, PartialEq, Eq, Structural)]
pub enum Ask {
    /// Read the thread.
    Read,
    /// Resume the thread in its workspace.
    Resume,
    /// Roll the thread back by so many turns.
    Rollback(usize),
}

/// A part of a dialogue: it asks, has failed, or has its finding and the number of replies used.
#[verifier::ext_equal]
pub ghost enum Talk<T> {
    Ask(Ask),
    Failed(Seq<char>),
    Got(T, int),
}

enum Talked<T> {
    Ask(Ask),
    Failed(String),
    Got(T, usize),
}

// ---------------------------------------------------------------------------------------------
// Reading a thread
// ---------------------------------------------------------------------------------------------
/// Whether an error says that the runtime does not hold the thread at the moment.
pub open spec fn is_unloaded(err: Seq<char>) -> bool {
    contains_text(err, "thread not loaded"@) || contains_text(err, "no rollout found"@)
}

/// Reading a thread, which is resumed first where the runtime does not hold it and the workspace is
/// known. `at` replies came before.
pub open spec fn read_talk(
    has_workspace: bool,
    replies: Seq<Result<JsonTree, Seq<char>>>,
    at: int,
) -> Talk<JsonTree> {
    if replies.len() <= at {
        Talk::Ask(Ask::Read)
    } else {
        match replies[at] {
            Ok(thread) => Talk::Got(thread, at + 1),
            Err(err) => if !is_unloaded(err) || !has_workspace {
                Talk::Failed(err)
            } else if replies.len() <= at + 1 {
                Talk::Ask(Ask::Resume)
            } else {
                match replies[at + 1] {
                    Err(resume_err) => Talk::Failed(
                        "failed to materialize thread for rollback: "@ + resume_err,
                    ),
                    Ok(_) => if replies.len() <= at + 2 {
                        Talk::Ask(Ask::Read)
                    } else {
                        match replies[at + 2] {
                            Ok(thread) => Talk::Got(thread, at + 3),
                            Err(again) => Talk::Failed(again),
                        }
                    },
                }
            },
        }
    }
}

fn unloaded(err: &str) -> (r: bool)
    ensures
        r == is_unloaded(err@),
{
    contains(err, "thread not loaded") || contains(err, "no rollout found")
}

fn read_thread_for_rollback(has_workspace: bool, replies: &Vec<Result<Json, String>>, at: usize) -> (
t: Talked<usize>)
    requires
        at <= replies@.len(),
    ensures
        match t {
            Talked::Ask(a) => read_talk(has_workspace, thread_replies(replies@), at as int)
                == Talk::<JsonTree>::Ask(a),
            Talked::Failed(err) => read_talk(has_workspace, thread_replies(replies@), at as int)
                == Talk::<JsonTree>::Failed(err@),
            Talked::Got(k, n) => k < replies@.len() && n <= replies@.len() && replies@[k as int] is Ok
                && read_talk(has_workspace, thread_replies(replies@), at as int) == Talk::Got(
                tree(replies@[k as int]->Ok_0),
                n as int,
            ),
        },
{
    let ghost models = thread_replies(replies@);
    if replies.len() <= at {
        return Talked::Ask(Ask::Read);
    }
    assert(models[at as int] == thread_reply(replies@[at as int]));
    match &replies[at] {
        Ok(_) => Talked::Got(at, at + 1),
        Err(err) => {
            if !unloaded(err.as_str()) || !has_workspace {
                return Talked::Failed(owned(err.as_str()));
            }
            if replies.len() - at <= 1 {
                return Talked::Ask(Ask::Resume);
            }
            assert(models[at + 1] == thread_reply(replies@[at + 1]));
            match &replies[at + 1] {
                Err(resume_err) => Talked::Failed(
                    concat(
                        "failed to materialize thread for rollback: ",
                        resume_err.as_str(),
                    ),
                ),
                Ok(_) => {
                    if replies.len() - at <= 2 {
                        return Talked::Ask(Ask::Read);
                    }
                    assert(models[at + 2] == thread_reply(replies@[at + 2]));
                    match &replies[at + 2] {
                        Ok(_) => Talked::Got(at + 2, at + 3),
                        Err(again) => Talked::Failed(owned(again.as_str())),
                    }
                },
            }
        },
    }
}

// ---------------------------------------------------------------------------------------------
// Rolling back
// ---------------------------------------------------------------------------------------------
/// Rolling a thread back, which is resumed first where the runtime does not hold it and the
/// workspace is known. `at` replies came before.
pub open spec fn rollback_talk(
    count: usize,
    has_workspace: bool,
    replies: Seq<Result<JsonTree, Seq<char>>>,
    at: int,
) -> Talk<JsonTree> {
    if replies.len() <= at {
        Talk::Ask(Ask::Rollback(count))
    } else {
        match replies[at] {
            Ok(thread) => Talk::Got(thread, at + 1),
            Err(err) => if !(contains_text(err, "thread not found"@) || is_unloaded(err))
                || !has_workspace {
                Talk::Failed(err)
            } else if replies.len() <= at + 1 {
                Talk::Ask(Ask::Resume)
            } else {
                match replies[at + 1] {
                    Err(resume_err) => Talk::Failed(
                        err + "; resume before rollback failed: "@ + resume_err,
                    ),
                    Ok(_) => if replies.len() <= at + 2 {
                        Talk::Ask(Ask::Rollback(count))
                    } else {
                        match replies[at + 2] {
                            Ok(thread) => Talk::Got(thread, at + 3),
                            Err(again) => Talk::Failed(again),
                        }
                    },
                }
            },
        }
    }
}

fn roll_back(count: usize, has_workspace: bool, replies: &Vec<Result<Json, String>>, at: usize) -> (
t: Talked<usize>)
    requires
        at <= replies@.len(),
    ensures
        match t {
            Talked::Ask(a) => rollback_talk(
                count,
                has_workspace,
                thread_replies(replies@),
                at as int,
            ) == Talk::<JsonTree>::Ask(a),
            Talked::Failed(err) => rollback_talk(
                count,
                has_workspace,
                thread_replies(replies@),
                at as int,
            ) == Talk::<JsonTree>::Failed(err@),
            Talked::Got(k, n) => k < replies@.len() && n <= replies@.len() && replies@[k as int] is Ok
                && rollback_talk(count, has_workspace, thread_replies(replies@), at as int)
                == Talk::Got(tree(replies@[k as int]->Ok_0), n as int),
        },
{
    let ghost models = thread_replies(replies@);
    if replies.len() <= at {
        return Talked::Ask(Ask::Rollback(count));
    }
    assert(models[at as int] == thread_reply(replies@[at as int]));
    match &replies[at] {
        Ok(_) => Talked::Got(at, at + 1),
        Err(err) => {
            let text = err.as_str();
            if !(contains(text, "thread not found") || unloaded(text)) || !has_workspace {
                return Talked::Failed(owned(text));
            }
            if replies.len() - at <= 1 {
                return Talked::Ask(Ask::Resume);
            }
            assert(models[at + 1] == thread_reply(replies@[at + 1]));
            match &replies[at + 1] {
                Err(resume_err) => Talked::Failed(
                    concat3(text, "; resume before rollback failed: ", resume_err.as_str()),
                ),
                Ok(_) => {
                    if replies.len() - at <= 2 {
                        return Talked::Ask(Ask::Rollback(count));
                    }
                    assert(models[at + 2] == thread_reply(replies@[at + 2]));
                    match &replies[at + 2] {
                        Ok(_) => Talked::Got(at + 2, at + 3),
                        Err(again) => Talked::Failed(owned(again.as_str())),
                    }
                },
            }
        },
    }
}

// ---------------------------------------------------------------------------------------------
// Trimming a chat
// ---------------------------------------------------------------------------------------------
/// The thread as it is to be shown, and whether the history of the runtime has to be read again.
pub struct ThreadSyncOutcome {
    pub thread: Json,
    pub request_runtime_history_reload: bool,
}

/// What came of a change to a chat.
pub struct ChatRestoreWorkerOutcome {
    pub status_text: String,
    pub thread_sync: Option<ThreadSyncOutcome>,
}

#[verifier::ext_equal]
pub ghost struct ChatModel {
    pub status: Seq<char>,
    pub sync: Option<(JsonTree, bool)>,
}

impl ChatRestoreWorkerOutcome {
    pub open spec fn model(self) -> ChatModel {
        ChatModel {
            status: self.status_text@,
            sync: match self.thread_sync {
                Some(s) => Some((tree(s.thread), s.request_runtime_history_reload)),
                None => None,
            },
        }
    }
}

/// What the trimming of a chat does next.
pub enum ChatStep {
    Ask(Ask),
    Done(Result<ChatRestoreWorkerOutcome, String>),
}

#[verifier::ext_equal]
pub ghost enum ChatStepModel {
    Ask(Ask),
    Done(Result<ChatModel, Seq<char>>),
}

impl ChatStep {
    pub open spec fn model(self) -> ChatStepModel {
        match self {
            ChatStep::Ask(a) => ChatStepModel::Ask(a),
            ChatStep::Done(r) => ChatStepModel::Done(
                match r {
                    Ok(o) => Ok(o.model()),
                    Err(e) => Err(e@),
                },
            ),
        }
    }
}

/// What is known of the runtime and the target when a chat is trimmed.
pub struct RollbackContext {
    pub supports_rollback: bool,
    pub is_opencode: bool,
    pub has_workspace: bool,
    pub target_turn_id: String,
    pub iso: IsoTimes,
}

pub open spec fn trim_failed(err: Seq<char>) -> ChatStepModel {
    ChatStepModel::Done(Err("chat trim failed: "@ + err))
}

pub open spec fn trimmed_status(count: int) -> Seq<char> {
    " • Chat trimmed: "@ + decimal(count as nat) + " turn(s)"@
}

/// Once the thread was rolled back: it is resumed where its workspace is known, and what is shown
/// is the trimmed thread, or what a runtime other than OpenCode holds now.
pub open spec fn after_rollback(
    c: RollbackContext,
    cut: CutModel,
    replies: Seq<Result<JsonTree, Seq<char>>>,
    at: int,
) -> ChatStepModel {
    if c.has_workspace && replies.len() <= at {
        ChatStepModel::Ask(Ask::Resume)
    } else {
        let next = if c.has_workspace {
            at + 1
        } else {
            at
        };
        if c.is_opencode {
            ChatStepModel::Done(
                Ok(
                    ChatModel {
                        status: trimmed_status(cut.rollback_count),
                        sync: Some((cut.thread, false)),
                    },
                ),
            )
        } else if replies.len() <= next {
            ChatStepModel::Ask(Ask::Read)
        } else {
            ChatStepModel::Done(
                Ok(
                    ChatModel {
                        status: trimmed_status(cut.rollback_count),
                        sync: Some(
                            (
                                match replies[next] {
                                    Ok(thread) => thread,
                                    Err(_) => cut.thread,
                                },
                                true,
                            ),
                        ),
                    },
                ),
            )
        }
    }
}

/// Trimming a chat to the turns before the target.
pub open spec fn trim_step(
    c: RollbackContext,
    replies: Seq<Result<JsonTree, Seq<char>>>,
) -> ChatStepModel {
    if !c.supports_rollback {
        ChatStepModel::Done(
            Ok(
                ChatModel {
                    status: " • Chat trim skipped (runtime does not support rollback)"@,
                    sync: None,
                },
            ),
        )
    } else if c.is_opencode && c.has_workspace && replies.len() == 0 {
        ChatStepModel::Ask(Ask::Resume)
    } else {
        let start = if c.is_opencode && c.has_workspace {
            1int
        } else {
            0int
        };
        match read_talk(c.has_workspace, replies, start) {
            Talk::Ask(a) => ChatStepModel::Ask(a),
            Talk::Failed(err) => trim_failed(err),
            Talk::Got(thread, at) => match trimmed_thread(thread, c.target_turn_id@, c.iso) {
                Err(err) => trim_failed(err),
                Ok(cut) => if cut.rollback_count == 0 {
                    ChatStepModel::Done(
                        Ok(
                            ChatModel {
                                status: " • Chat already at restored point"@,
                                sync: Some((cut.thread, false)),
                            },
                        ),
                    )
                } else {
                    match rollback_talk(
                        cut.rollback_count as usize,
                        c.has_workspace,
                        replies,
                        at,
                    ) {
                        Talk::Ask(a) => ChatStepModel::Ask(a),
                        Talk::Failed(err) => trim_failed(err),
                        Talk::Got(_, next) => after_rollback(c, cut, replies, next),
                    }
                },
            },
        }
    }
}

fn failed_trim(err: &str) -> (s: ChatStep)
    ensures
        s.model() == trim_failed(err@),
{
    ChatStep::Done(Err(concat("chat trim failed: ", err)))
}

/// Trimming a chat to the turns before the target, given the replies of the runtime so far.
pub fn rollback_thread_to_target(c: &RollbackContext, replies: &Vec<Result<Json, String>>) -> (s:
    ChatStep)
    ensures
        s.model() == trim_step(*c, thread_replies(replies@)),
{
    let ghost models = thread_replies(replies@);
    if !c.supports_rollback {
        return ChatStep::Done(
            Ok(
                ChatRestoreWorkerOutcome {
                    status_text: owned(" • Chat trim skipped (runtime does not support rollback)"),
                    thread_sync: None,
                },
            ),
        );
    }
    let resumed_first = c.is_opencode && c.has_workspace;
    if resumed_first && replies.len() == 0 {
        return ChatStep::Ask(Ask::Resume);
    }
    let start: usize = if resumed_first {
        1
    } else {
        0
    };
    let (index, at) = match read_thread_for_rollback(c.has_workspace, replies, start) {
        Talked::Ask(a) => return ChatStep::Ask(a),
        Talked::Failed(err) => return failed_trim(err.as_str()),
        Talked::Got(k, n) => (k, n),
    };
    let thread = match &replies[index] {
        Ok(thread) => thread,
        Err(err) => return failed_trim(err.as_str()),
    };
    let cut = match build_trimmed_thread_view(thread, c.target_turn_id.as_str(), &c.iso) {
        Ok(cut) => cut,
        Err(err) => return failed_trim(err.as_str()),
    };
    if cut.rollback_count == 0 {
        return ChatStep::Done(
            Ok(
                ChatRestoreWorkerOutcome {
                    status_text: owned(" • Chat already at restored point"),
                    thread_sync: Some(
                        ThreadSyncOutcome {
                            thread: cut.thread,
                            request_runtime_history_reload: false,
                        },
                    ),
                },
            ),
        );
    }
    let next = match roll_back(cut.rollback_count, c.has_workspace, replies, at) {
        Talked::Ask(a) => return ChatStep::Ask(a),
        Talked::Failed(err) => return failed_trim(err.as_str()),
        Talked::Got(_, n) => n,
    };
    if c.has_workspace && replies.len() <= next {
        return ChatStep::Ask(Ask::Resume);
    }
    let last: usize = if c.has_workspace {
        next + 1
    } else {
        next
    };
    let status_text = concat3(
        " • Chat trimmed: ",
        decimal_usize(cut.rollback_count).as_str(),
        " turn(s)",
    );
    if c.is_opencode {
        return ChatStep::Done(
            Ok(
                ChatRestoreWorkerOutcome {
                    status_text,
                    thread_sync: Some(
                        ThreadSyncOutcome {
                            thread: cut.thread,
                            request_runtime_history_reload: false,
                        },
                    ),
                },
            ),
        );
    }
    if replies.len() <= last {
        return ChatStep::Ask(Ask::Read);
    }
    assert(models[last as int] == thread_reply(replies@[last as int]));
    let shown = match &replies[last] {
        Ok(thread) => thread.copy(),
        Err(_) => cut.thread,
    };
    ChatStep::Done(
        Ok(
            ChatRestoreWorkerOutcome {
                status_text,
                thread_sync: Some(
                    ThreadSyncOutcome { thread: shown, request_runtime_history_reload: true },
                ),
            },
        ),
    )
}

/// Trimming a chat asks the runtime at most nine times.
pub proof fn lemma_trim_ends(c: RollbackContext, replies: Seq<Result<JsonTree, Seq<char>>>)
    requires
        replies.len() >= 9,
    ensures
        trim_step(c, replies) is Done,
{
}

/// A thread is rolled back only once it was read and the target found in it, and by the turns from
/// the target on.
pub proof fn lemma_rollback_needs_target(
    c: RollbackContext,
    replies: Seq<Result<JsonTree, Seq<char>>>,
    count: usize,
)
    requires
        trim_step(c, replies) == ChatStepModel::Ask(Ask::Rollback(count)),
    ensures
        exists|i: int|
            #![trigger replies[i]]
            0 <= i < replies.len() && (replies[i] matches Ok(thread) && (trimmed_thread(
                thread,
                c.target_turn_id@,
                c.iso,
            ) matches Ok(cut) && cut.rollback_count as usize == count)),
{
    let start = if c.is_opencode && c.has_workspace {
        1int
    } else {
        0int
    };
    match read_talk(c.has_workspace, replies, start) {
        Talk::Got(thread, at) => {
            assert(replies[at - 1] == Ok::<JsonTree, Seq<char>>(thread));
        },
        _ => {},
    }
}

// ---------------------------------------------------------------------------------------------
// What trimming a chat comes to
// ---------------------------------------------------------------------------------------------
/// Whenever it is said that turns were trimmed, the runtime was asked to roll back by just as many
/// turns, whichever runtime it is, and said that it did.
pub proof fn lemma_trimmed_means_rolled_back(
    c: RollbackContext,
    replies: Seq<Result<JsonTree, Seq<char>>>,
    n: nat,
)
    requires
        n <= usize::MAX,
        trim_step(c, replies) matches ChatStepModel::Done(Ok(m)) && m.status
            == " • Chat trimmed: "@ + decimal(n) + " turn(s)"@,
    ensures
        exists|k: int|
            0 <= k < replies.len() && #[trigger] replies[k] is Ok && trim_step(c, replies.take(k))
                == ChatStepModel::Ask(Ask::Rollback(n as usize)),
{
    reveal_strlit(" • Chat trimmed: ");
    reveal_strlit(" • Chat trim skipped (runtime does not support rollback)");
    reveal_strlit(" • Chat already at restored point");
    reveal_strlit(" turn(s)");
    let said = " • Chat trimmed: "@ + decimal(n) + " turn(s)"@;
    assert(said[8] == 't' && said[12] == 'm');
    let start = if c.is_opencode && c.has_workspace {
        1int
    } else {
        0int
    };
    assert(c.supports_rollback) by {
        assert(" • Chat trim skipped (runtime does not support rollback)"@[12] == ' ');
    }
    assert(read_talk(c.has_workspace, replies, start) is Got);
    let (thread, at) = match read_talk(c.has_workspace, replies, start) {
        Talk::Got(thread, at) => (thread, at),
        _ => arbitrary(),
    };
    let cut = trimmed_thread(thread, c.target_turn_id@, c.iso)->Ok_0;
    lemma_cut_count(thread, c.target_turn_id@, c.iso);
    assert(cut.rollback_count != 0) by {
        assert(" • Chat already at restored point"@[8] == 'a');
    }
    let count = cut.rollback_count as nat;
    assert(said == trimmed_status(cut.rollback_count));
    let a = said.subrange(17, said.len() - 8);
    assert(a =~= decimal(n));
    assert(trimmed_status(cut.rollback_count).subrange(
        17,
        trimmed_status(cut.rollback_count).len() - 8,
    ) =~= decimal(count));
    lemma_decimal_text(n, count);
    let next = match rollback_talk(cut.rollback_count as usize, c.has_workspace, replies, at) {
        Talk::Got(_, next) => next,
        _ => arbitrary(),
    };
    let k = next - 1;
    let short = replies.take(k);
    assert forall|i: int| 0 <= i < k implies short[i] == replies[i] by {}
    assert(replies[k] is Ok);
    assert(read_talk(c.has_workspace, short, start) == read_talk(c.has_workspace, replies, start));
    assert(rollback_talk(cut.rollback_count as usize, c.has_workspace, short, at) == Talk::<
        JsonTree,
    >::Ask(Ask::Rollback(n as usize)));
}

/// The replies with which a dialogue about trimming begins: an OpenCode thread is resumed first
/// where its workspace is known.
pub open spec fn lead(
    c: RollbackContext,
    first: Result<JsonTree, Seq<char>>,
) -> Seq<Result<JsonTree, Seq<char>>> {
    if c.is_opencode && c.has_workspace {
        seq![first]
    } else {
        Seq::empty()
    }
}

/// Whether a turn is the first of a thread with an identifier.
pub open spec fn is_target(thread: JsonTree, turns: Seq<JsonTree>, index: int, id: Seq<char>) -> bool {
    &&& field_items(thread, "turns"@) == Some(turns)
    &&& 0 <= index < turns.len() <= usize::MAX
    &&& field_str(turns[index], "id"@) == Some(id)
    &&& forall|j: int| 0 <= j < index ==> field_str(#[trigger] turns[j], "id"@) != Some(id)
}

/// A thread with only the turns that stay when it is cut at a turn.
pub open spec fn cut_thread(
    thread: JsonTree,
    turns: Seq<JsonTree>,
    iso: IsoTimes,
    index: int,
) -> JsonTree {
    JsonTree::Obj(
        thread->Obj_0.insert(
            "turns"@,
            JsonTree::Arr(turns.filter(|t: JsonTree| stays(turns, iso, index, t))),
        ),
    )
}

proof fn lemma_target_cut(
    thread: JsonTree,
    turns: Seq<JsonTree>,
    index: int,
    id: Seq<char>,
    iso: IsoTimes,
)
    requires
        is_target(thread, turns, index, id),
    ensures
        trimmed_thread(thread, id, iso) matches Ok(cut) && cut.thread == cut_thread(
            thread,
            turns,
            iso,
            index,
        ) && cut.rollback_count == from_then_on(turns, iso, index).len() && 1 <= cut.rollback_count
            <= usize::MAX,
{
    lemma_cut_target(thread, id, iso, turns, index);
    lemma_cut(thread, id, iso, turns);
}

/// A chat whose thread holds the target turn is trimmed in this dialogue: the thread is read, the
/// runtime rolls back by the target and the turns after it, the thread is resumed where its
/// workspace is known, and shown are the turns before the target, or what a runtime other than
/// OpenCode holds then.
pub proof fn lemma_trim_dialogue(
    c: RollbackContext,
    thread: JsonTree,
    turns: Seq<JsonTree>,
    index: int,
    first: Result<JsonTree, Seq<char>>,
    rolled: JsonTree,
    resumed: Result<JsonTree, Seq<char>>,
    again: Result<JsonTree, Seq<char>>,
)
    requires
        c.supports_rollback,
        is_target(thread, turns, index, c.target_turn_id@),
    ensures
        ({
            let n = from_then_on(turns, c.iso, index).len();
            let kept = cut_thread(thread, turns, c.iso, index);
            let read = lead(c, first).push(Ok(thread));
            let back = read.push(Ok(rolled));
            let ready = if c.has_workspace {
                back.push(resumed)
            } else {
                back
            };
            let said = " • Chat trimmed: "@ + decimal(n) + " turn(s)"@;
            &&& n >= 1
            &&& c.is_opencode && c.has_workspace ==> trim_step(c, Seq::empty())
                == ChatStepModel::Ask(Ask::Resume)
            &&& trim_step(c, lead(c, first)) == ChatStepModel::Ask(Ask::Read)
            &&& trim_step(c, read) == ChatStepModel::Ask(Ask::Rollback(n as usize))
            &&& c.has_workspace ==> trim_step(c, back) == ChatStepModel::Ask(Ask::Resume)
            &&& c.is_opencode ==> trim_step(c, ready) == ChatStepModel::Done(
                Ok(ChatModel { status: said, sync: Some((kept, false)) }),
            )
            &&& !c.is_opencode ==> trim_step(c, ready) == ChatStepModel::Ask(Ask::Read)
                && trim_step(c, ready.push(again)) == ChatStepModel::Done(
                Ok(
                    ChatModel {
                        status: said,
                        sync: Some(
                            (
                                match again {
                                    Ok(held) => held,
                                    Err(_) => kept,
                                },
                                true,
                            ),
                        ),
                    },
                ),
            )
        }),
{
    lemma_target_cut(thread, turns, index, c.target_turn_id@, c.iso);
    let start = lead(c, first);
    let read = start.push(Ok(thread));
    let back = read.push(Ok(rolled));
    assert(start.len() <= 1);
    assert(read[start.len() as int] == Ok::<JsonTree, Seq<char>>(thread));
    assert(back[start.len() as int] == Ok::<JsonTree, Seq<char>>(thread));
    assert(back[start.len() as int + 1] == Ok::<JsonTree, Seq<char>>(rolled));
    let ready = if c.has_workspace {
        back.push(resumed)
    } else {
        back
    };
    assert(ready[start.len() as int] == Ok::<JsonTree, Seq<char>>(thread));
    assert(ready[start.len() as int + 1] == Ok::<JsonTree, Seq<char>>(rolled));
    let end = ready.push(again);
    assert(end[start.len() as int] == Ok::<JsonTree, Seq<char>>(thread));
    assert(end[start.len() as int + 1] == Ok::<JsonTree, Seq<char>>(rolled));
    assert(end[ready.len() as int] == again);
}

/// Whether an error says that the runtime does not hold the thread.
pub open spec fn says_not_held(err: Seq<char>) -> bool {
    (exists|at: int| crate::text::occurs_at(err, "thread not loaded"@, at)) || (exists|at: int|
        crate::text::occurs_at(err, "no rollout found"@, at))
}

pub open spec fn says_not_found(err: Seq<char>) -> bool {
    exists|at: int| crate::text::occurs_at(err, "thread not found"@, at)
}

proof fn lemma_not_held(err: Seq<char>)
    ensures
        is_unloaded(err) == says_not_held(err),
        contains_text(err, "thread not found"@) == says_not_found(err),
{
    crate::text::lemma_contains_text(err, "thread not loaded"@);
    crate::text::lemma_contains_text(err, "no rollout found"@);
    crate::text::lemma_contains_text(err, "thread not found"@);
}

/// A thread that cannot be read, because the runtime does not hold it, is resumed where its
/// workspace is known; when it can be read then, all goes on as if it had been read at once. In all
/// other cases the trimming ends with the error.
pub proof fn lemma_trim_reads_again(
    c: RollbackContext,
    first: Result<JsonTree, Seq<char>>,
    err: Seq<char>,
    resumed: JsonTree,
    again: Seq<char>,
    tail: Seq<Result<JsonTree, Seq<char>>>,
)
    requires
        c.supports_rollback,
    ensures
        ({
            let at_once = lead(c, first);
            let missed = at_once.push(Err(err));
            let held = missed.push(Ok(resumed));
            let retried = c.has_workspace && says_not_held(err);
            &&& !retried ==> trim_step(c, missed) == ChatStepModel::Done(
                Err("chat trim failed: "@ + err),
            )
            &&& retried ==> trim_step(c, missed) == ChatStepModel::Ask(Ask::Resume)
            &&& retried ==> trim_step(c, missed.push(Err(again))) == ChatStepModel::Done(
                Err(
                    "chat trim failed: "@ + ("failed to materialize thread for rollback: "@
                        + again),
                ),
            )
            &&& retried ==> trim_step(c, held) == ChatStepModel::Ask(Ask::Read)
            &&& retried ==> trim_step(c, held.push(Err(again))) == ChatStepModel::Done(
                Err("chat trim failed: "@ + again),
            )
            &&& retried && tail.len() > 0 && tail[0] is Ok ==> trim_step(c, held + tail)
                == trim_step(c, at_once + tail)
        }),
{
    lemma_not_held(err);
    let at_once = lead(c, first);
    let missed = at_once.push(Err(err));
    let held = missed.push(Ok(resumed));
    let s = at_once.len() as int;
    assert(missed[s] == Err::<JsonTree, Seq<char>>(err));
    assert(missed.push(Err(again))[s] == Err::<JsonTree, Seq<char>>(err));
    assert(missed.push(Err(again))[s + 1] == Err::<JsonTree, Seq<char>>(again));
    assert(held[s] == Err::<JsonTree, Seq<char>>(err));
    assert(held.push(Err(again))[s] == Err::<JsonTree, Seq<char>>(err));
    assert(held.push(Err(again))[s + 1] == Ok::<JsonTree, Seq<char>>(resumed));
    assert(held.push(Err(again))[s + 2] == Err::<JsonTree, Seq<char>>(again));
    if c.has_workspace && says_not_held(err) && tail.len() > 0 && tail[0] is Ok {
        let long = held + tail;
        let short = at_once + tail;
        assert(long[s] == Err::<JsonTree, Seq<char>>(err));
        assert(long[s + 1] == Ok::<JsonTree, Seq<char>>(resumed));
        assert(long[s + 2] == tail[0]);
        assert(short[s] == tail[0]);
        assert forall|i: int| s <= i < short.len() implies long[i + 2] == #[trigger] short[i] by {}
        let thread = tail[0]->Ok_0;
        if let Ok(cut) = trimmed_thread(thread, c.target_turn_id@, c.iso) {
            lemma_rollback_shifts(
                cut.rollback_count as usize,
                c.has_workspace,
                short,
                long,
                s + 1,
            );
        }
    }
}

proof fn lemma_rollback_shifts(
    count: usize,
    has_workspace: bool,
    short: Seq<Result<JsonTree, Seq<char>>>,
    long: Seq<Result<JsonTree, Seq<char>>>,
    at: int,
)
    requires
        0 <= at,
        long.len() == short.len() + 2,
        forall|i: int| at <= i < short.len() ==> long[i + 2] == #[trigger] short[i],
    ensures
        match rollback_talk(count, has_workspace, short, at) {
            Talk::Got(t, n) => rollback_talk(count, has_workspace, long, at + 2) == Talk::Got(
                t,
                n + 2,
            ) && at < n <= short.len(),
            other => rollback_talk(count, has_workspace, long, at + 2) == other,
        },
{
    if at < short.len() {
        assert(long[at + 2] == short[at]);
    }
    if at + 1 < short.len() {
        assert(long[at + 3] == short[at + 1]);
    }
    if at + 2 < short.len() {
        assert(long[at + 4] == short[at + 2]);
    }
}

/// A rollback that fails because the runtime does not hold or find the thread is tried again, once
/// the thread was resumed, where its workspace is known; when it works then, all goes on as if it
/// had worked at once. In all other cases the trimming ends with the error.
pub proof fn lemma_trim_rolls_back_again(
    c: RollbackContext,
    thread: JsonTree,
    turns: Seq<JsonTree>,
    index: int,
    first: Result<JsonTree, Seq<char>>,
    err: Seq<char>,
    resumed: JsonTree,
    again: Seq<char>,
    tail: Seq<Result<JsonTree, Seq<char>>>,
)
    requires
        c.supports_rollback,
        is_target(thread, turns, index, c.target_turn_id@),
    ensures
        ({
            let n = from_then_on(turns, c.iso, index).len();
            let read = lead(c, first).push(Ok(thread));
            let missed = read.push(Err(err));
            let held = missed.push(Ok(resumed));
            let retried = c.has_workspace && (says_not_held(err) || says_not_found(err));
            &&& !retried ==> trim_step(c, missed) == ChatStepModel::Done(
                Err("chat trim failed: "@ + err),
            )
            &&& retried ==> trim_step(c, missed) == ChatStepModel::Ask(Ask::Resume)
            &&& retried ==> trim_step(c, missed.push(Err(again))) == ChatStepModel::Done(
                Err("chat trim failed: "@ + (err + "; resume before rollback failed: "@ + again)),
            )
            &&& retried ==> trim_step(c, held) == ChatStepModel::Ask(Ask::Rollback(n as usize))
            &&& retried ==> trim_step(c, held.push(Err(again))) == ChatStepModel::Done(
                Err("chat trim failed: "@ + again),
            )
            &&& retried && tail.len() > 0 && tail[0] is Ok ==> trim_step(c, held + tail)
                == trim_step(c, read + tail)
        }),
{
    lemma_not_held(err);
    lemma_target_cut(thread, turns, index, c.target_turn_id@, c.iso);
    let start = lead(c, first);
    let read = start.push(Ok(thread));
    let missed = read.push(Err(err));
    let held = missed.push(Ok(resumed));
    let s = start.len() as int;
    assert(missed[s] == Ok::<JsonTree, Seq<char>>(thread));
    assert(missed[s + 1] == Err::<JsonTree, Seq<char>>(err));
    let m2 = missed.push(Err(again));
    assert(m2[s] == Ok::<JsonTree, Seq<char>>(thread));
    assert(m2[s + 1] == Err::<JsonTree, Seq<char>>(err));
    assert(m2[s + 2] == Err::<JsonTree, Seq<char>>(again));
    assert(held[s] == Ok::<JsonTree, Seq<char>>(thread));
    assert(held[s + 1] == Err::<JsonTree, Seq<char>>(err));
    assert(held[s + 2] == Ok::<JsonTree, Seq<char>>(resumed));
    let h2 = held.push(Err(again));
    assert(h2[s] == Ok::<JsonTree, Seq<char>>(thread));
    assert(h2[s + 1] == Err::<JsonTree, Seq<char>>(err));
    assert(h2[s + 2] == Ok::<JsonTree, Seq<char>>(resumed));
    assert(h2[s + 3] == Err::<JsonTree, Seq<char>>(again));
    let long = held + tail;
    let short = read + tail;
    assert(long[s] == Ok::<JsonTree, Seq<char>>(thread));
    assert(long[s + 1] == Err::<JsonTree, Seq<char>>(err));
    assert(long[s + 2] == Ok::<JsonTree, Seq<char>>(resumed));
    assert(short[s] == Ok::<JsonTree, Seq<char>>(thread));
    if tail.len() > 0 {
        assert(long[s + 3] == tail[0]);
        assert(short[s + 1] == tail[0]);
        assert forall|i: int| s + 1 <= i < short.len() implies long[i + 2] == #[trigger] short[i] by {}
        if s + 2 < short.len() {
            assert(long[s + 4] == short[s + 2]);
        }
        if s + 3 < short.len() {
            assert(long[s + 5] == short[s + 3]);
        }
    }
}

/// A runtime that cannot roll back is not asked for anything, and a chat whose thread lacks the
/// target is left as it is, with an error.
pub proof fn lemma_trim_refused(
    c: RollbackContext,
    thread: JsonTree,
    turns: Seq<JsonTree>,
    first: Result<JsonTree, Seq<char>>,
    tail: Seq<Result<JsonTree, Seq<char>>>,
)
    ensures
        !c.supports_rollback ==> trim_step(c, tail) == ChatStepModel::Done(
            Ok(
                ChatModel {
                    status: " • Chat trim skipped (runtime does not support rollback)"@,
                    sync: None,
                },
            ),
        ),
        c.supports_rollback && field_items(thread, "turns"@) is None ==> trim_step(
            c,
            lead(c, first).push(Ok(thread)) + tail,
        ) == ChatStepModel::Done(Err("chat trim failed: "@ + "thread has no turns payload."@)),
        c.supports_rollback && field_items(thread, "turns"@) == Some(turns) && (forall|j: int|
            0 <= j < turns.len() ==> field_str(#[trigger] turns[j], "id"@) != Some(
                c.target_turn_id@,
            )) ==> trim_step(c, lead(c, first).push(Ok(thread)) + tail) == ChatStepModel::Done(
            Err(
                "chat trim failed: "@ + "selected turn was not found in the remote thread."@,
            ),
        ),
{
    let start = lead(c, first);
    let all = start.push(Ok(thread)) + tail;
    assert(all[start.len() as int] == Ok::<JsonTree, Seq<char>>(thread));
    if field_items(thread, "turns"@) == Some(turns) {
        lemma_cut_target(thread, c.target_turn_id@, c.iso, turns, 0);
    }
}

// ---------------------------------------------------------------------------------------------
// OpenCode chats
// ---------------------------------------------------------------------------------------------
/// Why an OpenCode chat cannot be restored.
pub open spec fn opencode_obstacle(
    has_target: bool,
    backend_kind: Option<Seq<char>>,
) -> Option<Seq<char>> {
    if !has_target {
        Some("OpenCode restore requires a checkpoint turn target."@)
    } else {
        match backend_kind {
            None => Some("OpenCode restore requires a running runtime client."@),
            Some(kind) => if names_opencode(kind) {
                None
            } else {
                Some("OpenCode restore is only available for OpenCode threads."@)
            },
        }
    }
}

pub fn opencode_restore_obstacle(has_target: bool, backend_kind: Option<&str>) -> (r: Option<
    &'static str,
>)
    ensures
        match r {
            Some(text) => opencode_obstacle(
                has_target,
                str_option(backend_kind),
            ) == Some(text@),
            None => opencode_obstacle(
                has_target,
                str_option(backend_kind),
            ) is None,
        },
{
    if !has_target {
        return Some("OpenCode restore requires a checkpoint turn target.");
    }
    match backend_kind {
        None => Some("OpenCode restore requires a running runtime client."),
        Some(kind) => if is_opencode_backend(kind) {
            None
        } else {
            Some("OpenCode restore is only available for OpenCode threads.")
        },
    }
}

/// What the undo of an OpenCode restore does next.
pub enum UndoStep {
    Resume,
    Unrollback,
    Done(Result<ChatRestoreWorkerOutcome, String>),
}

#[verifier::ext_equal]
pub ghost enum UndoStepModel {
    Resume,
    Unrollback,
    Done(Result<ChatModel, Seq<char>>),
}

impl UndoStep {
    pub open spec fn model(self) -> UndoStepModel {
        match self {
            UndoStep::Resume => UndoStepModel::Resume,
            UndoStep::Unrollback => UndoStepModel::Unrollback,
            UndoStep::Done(r) => UndoStepModel::Done(
                match r {
                    Ok(o) => Ok(o.model()),
                    Err(e) => Err(e@),
                },
            ),
        }
    }
}

/// The undo of an OpenCode restore: the thread is resumed before and after where its workspace is
/// known.
pub open spec fn undo_step(
    backend_kind: Option<Seq<char>>,
    has_workspace: bool,
    replies: Seq<Result<JsonTree, Seq<char>>>,
) -> UndoStepModel {
    match backend_kind {
        None => UndoStepModel::Done(
            Err("OpenCode restore undo requires a running runtime client."@),
        ),
        Some(kind) => if !names_opencode(kind) {
            UndoStepModel::Done(
                Err("OpenCode restore undo is only available for OpenCode threads."@),
            )
        } else if has_workspace && replies.len() == 0 {
            UndoStepModel::Resume
        } else {
            let at = if has_workspace {
                1int
            } else {
                0int
            };
            if replies.len() <= at {
                UndoStepModel::Unrollback
            } else {
                match replies[at] {
                    Err(err) => UndoStepModel::Done(Err("OpenCode undo failed: "@ + err)),
                    Ok(thread) => if has_workspace && replies.len() <= at + 1 {
                        UndoStepModel::Resume
                    } else {
                        UndoStepModel::Done(
                            Ok(
                                ChatModel {
                                    status: " • OpenCode restore undone"@,
                                    sync: Some((thread, true)),
                                },
                            ),
                        )
                    },
                }
            }
        },
    }
}

pub fn undo_opencode_restore(
    backend_kind: Option<&str>,
    has_workspace: bool,
    replies: &Vec<Result<Json, String>>,
) -> (s: UndoStep)
    ensures
        s.model() == undo_step(
            str_option(backend_kind),
            has_workspace,
            thread_replies(replies@),
        ),
{
    let ghost models = thread_replies(replies@);
    match backend_kind {
        None => {
            return UndoStep::Done(
                Err(owned("OpenCode restore undo requires a running runtime client.")),
            );
        },
        Some(kind) => {
            if !is_opencode_backend(kind) {
                return UndoStep::Done(
                    Err(owned("OpenCode restore undo is only available for OpenCode threads.")),
                );
            }
        },
    }
    if has_workspace && replies.len() == 0 {
        return UndoStep::Resume;
    }
    let at: usize = if has_workspace {
        1
    } else {
        0
    };
    if replies.len() <= at {
        return UndoStep::Unrollback;
    }
    assert(models[at as int] == thread_reply(replies@[at as int]));
    match &replies[at] {
        Err(err) => UndoStep::Done(Err(concat("OpenCode undo failed: ", err.as_str()))),
        Ok(thread) => {
            if has_workspace && replies.len() <= at + 1 {
                return UndoStep::Resume;
            }
            UndoStep::Done(
                Ok(
                    ChatRestoreWorkerOutcome {
                        status_text: owned(" • OpenCode restore undone"),
                        thread_sync: Some(
                            ThreadSyncOutcome {
                                thread: thread.copy(),
                                request_runtime_history_reload: true,
                            },
                        ),
                    },
                ),
            )
        },
    }
}

/// What is said of the chat when a restore is undone.
pub open spec fn undo_said(reply: Result<Seq<char>, Seq<char>>) -> Seq<char> {
    match reply {
        Ok(status) => status,
        Err(err) => " • Chat restore skipped ("@ + err + ")"@,
    }
}

pub fn undo_chat_status(reply: &Result<String, String>) -> (r: String)
    ensures
        r@ == undo_said(crate::git_flow::reply_model(*reply)),
{
    match reply {
        Ok(status) => owned(status.as_str()),
        Err(err) => concat3(" • Chat restore skipped (", err.as_str(), ")"),
    }
}

// ---------------------------------------------------------------------------------------------
// Restoring files and chat
// ---------------------------------------------------------------------------------------------
/// What a restore of files and chat does next.
#[derive(Debug)]
pub enum RestoreStep {
    /// Trim the chat.
    Trim,
    /// Restore the files.
    Apply,
    /// All is done, with this to say of the chat; or something failed.
    Done(Result<String, String>),
}

#[verifier::ext_equal]
pub ghost enum RestoreStepModel {
    Trim,
    Apply,
    Done(Result<Seq<char>, Seq<char>>),
}

impl RestoreStep {
    pub open spec fn model(self) -> RestoreStepModel {
        match self {
            RestoreStep::Trim => RestoreStepModel::Trim,
            RestoreStep::Apply => RestoreStepModel::Apply,
            RestoreStep::Done(r) => RestoreStepModel::Done(crate::git_flow::reply_model(r)),
        }
    }
}

/// How the restore of the files went: it was not possible for the checkpoint, or it failed.
#[derive(Debug)]
pub enum ApplyReply {
    Applied,
    Unavailable,
    Failed(String),
}

pub open spec fn apply_reply(
    apply: Option<ApplyReply>,
    then_: RestoreStepModel,
) -> RestoreStepModel {
    match apply {
        None => RestoreStepModel::Apply,
        Some(ApplyReply::Failed(err)) => RestoreStepModel::Done(Err(err@)),
        Some(ApplyReply::Unavailable) => RestoreStepModel::Done(
            Err("Restore apply unavailable for this checkpoint."@),
        ),
        Some(ApplyReply::Applied) => then_,
    }
}

pub open spec fn skipped_status() -> Seq<char> {
    " • Chat trim skipped (no remote turn context)"@
}

/// The restore of files and chat. An OpenCode runtime holds the files too, so there the chat is
/// trimmed first, and the files stay as they are where that fails.
pub open spec fn restore_step(
    backend_kind: Option<Seq<char>>,
    has_target: bool,
    trim: Option<Result<Seq<char>, Seq<char>>>,
    apply: Option<ApplyReply>,
) -> RestoreStepModel {
    let opencode = (backend_kind matches Some(kind) && names_opencode(kind));
    if opencode {
        if !has_target {
            RestoreStepModel::Done(
                Err("Restore applied, but chat trim failed: no remote turn context."@),
            )
        } else {
            match trim {
                None => RestoreStepModel::Trim,
                Some(Err(err)) => RestoreStepModel::Done(
                    Err("Restore apply aborted because "@ + err),
                ),
                Some(Ok(status)) => apply_reply(apply, RestoreStepModel::Done(Ok(status))),
            }
        }
    } else {
        apply_reply(
            apply,
            if !has_target {
                RestoreStepModel::Done(Ok(skipped_status()))
            } else if backend_kind is None {
                RestoreStepModel::Done(
                    Err("Restore applied, but chat trim failed: runtime client unavailable."@),
                )
            } else {
                match trim {
                    None => RestoreStepModel::Trim,
                    Some(Err(err)) => RestoreStepModel::Done(Err("Restore applied, but "@ + err)),
                    Some(Ok(status)) => RestoreStepModel::Done(Ok(status)),
                }
            },
        )
    }
}

pub open spec fn reply_option(r: Option<Result<String, String>>) -> Option<
    Result<Seq<char>, Seq<char>>,
> {
    match r {
        Some(x) => Some(crate::git_flow::reply_model(x)),
        None => None,
    }
}

fn applied_or(apply: &Option<ApplyReply>) -> (r: Option<RestoreStep>)
    ensures
        match r {
            None => *apply == Some(ApplyReply::Applied),
            Some(step) => forall|m: RestoreStepModel|
                #![trigger apply_reply(*apply, m)]
                apply_reply(*apply, m) == step.model(),
        },
{
    match apply {
        None => Some(RestoreStep::Apply),
        Some(ApplyReply::Failed(err)) => Some(RestoreStep::Done(Err(owned(err.as_str())))),
        Some(ApplyReply::Unavailable) => Some(
            RestoreStep::Done(Err(owned("Restore apply unavailable for this checkpoint."))),
        ),
        Some(ApplyReply::Applied) => None,
    }
}

pub fn apply_restore_step(
    backend_kind: Option<&str>,
    has_target: bool,
    trim: &Option<Result<String, String>>,
    apply: &Option<ApplyReply>,
) -> (s: RestoreStep)
    ensures
        s.model() == restore_step(
            str_option(backend_kind),
            has_target,
            reply_option(*trim),
            *apply,
        ),
{
    let opencode = match backend_kind {
        Some(kind) => is_opencode_backend(kind),
        None => false,
    };
    if opencode {
        if !has_target {
            return RestoreStep::Done(
                Err(owned("Restore applied, but chat trim failed: no remote turn context.")),
            );
        }
        match trim {
            None => RestoreStep::Trim,
            Some(Err(err)) => RestoreStep::Done(
                Err(concat("Restore apply aborted because ", err.as_str())),
            ),
            Some(Ok(status)) => {
                let done = RestoreStep::Done(Ok(owned(status.as_str())));
                match applied_or(apply) {
                    Some(step) => {
                        assert(apply_reply(*apply, done.model()) == step.model());
                        step
                    },
                    None => done,
                }
            },
        }
    } else {
        match applied_or(apply) {
            Some(step) => {
                assert(apply_reply(*apply, step.model()) == step.model());
                return step;
            },
            None => {},
        }
        if !has_target {
            return RestoreStep::Done(Ok(owned(" • Chat trim skipped (no remote turn context)")));
        }
        if backend_kind.is_none() {
            return RestoreStep::Done(
                Err(owned("Restore applied, but chat trim failed: runtime client unavailable.")),
            );
        }
        match trim {
            None => RestoreStep::Trim,
            Some(Err(err)) => RestoreStep::Done(
                Err(concat("Restore applied, but ", err.as_str())),
            ),
            Some(Ok(status)) => RestoreStep::Done(Ok(owned(status.as_str()))),
        }
    }
}

/// All is done only once the files were restored and, where there is a target, the chat was
/// trimmed; then what was said of the trimming is said. Nothing is done twice.
pub proof fn lemma_restore_is_whole(
    backend_kind: Option<Seq<char>>,
    has_target: bool,
    trim: Option<Result<Seq<char>, Seq<char>>>,
    apply: Option<ApplyReply>,
    said: Seq<char>,
)
    ensures
        ({
            let step = restore_step(backend_kind, has_target, trim, apply);
            &&& step == RestoreStepModel::Done(Ok(said)) && has_target ==> apply == Some(
                ApplyReply::Applied,
            ) && trim == Some(Ok::<Seq<char>, Seq<char>>(said)) && backend_kind is Some
            &&& step == RestoreStepModel::Done(Ok(said)) && !has_target ==> apply == Some(
                ApplyReply::Applied,
            ) && said == " • Chat trim skipped (no remote turn context)"@
            &&& apply == Some(ApplyReply::Applied) && has_target && backend_kind is Some && trim
                == Some(Ok::<Seq<char>, Seq<char>>(said)) ==> step == RestoreStepModel::Done(
                Ok(said),
            )
            &&& trim is Some ==> !(step is Trim)
            &&& apply is Some ==> !(step is Apply)
        }),
{
}

/// With an OpenCode runtime the chat comes first: without a target nothing is done, and where the
/// chat cannot be trimmed the files are not touched. With another runtime the files come first, and
/// where they cannot be restored the chat is not touched.
pub proof fn lemma_restore_stops(
    kind: Seq<char>,
    has_target: bool,
    trim: Option<Result<Seq<char>, Seq<char>>>,
    apply: Option<ApplyReply>,
    err: Seq<char>,
    reason: String,
)
    ensures
        names_opencode(kind) && !has_target ==> restore_step(Some(kind), has_target, trim, apply)
            == RestoreStepModel::Done(
            Err("Restore applied, but chat trim failed: no remote turn context."@),
        ),
        names_opencode(kind) && has_target ==> restore_step(Some(kind), has_target, None, apply)
            == RestoreStepModel::Trim && restore_step(
            Some(kind),
            has_target,
            Some(Err(err)),
            apply,
        ) == RestoreStepModel::Done(Err("Restore apply aborted because "@ + err)) && restore_step(
            Some(kind),
            has_target,
            Some(Ok(err)),
            None,
        ) == RestoreStepModel::Apply,
        !names_opencode(kind) ==> restore_step(Some(kind), has_target, trim, None)
            == RestoreStepModel::Apply && restore_step(
            Some(kind),
            has_target,
            trim,
            Some(ApplyReply::Failed(reason)),
        ) == RestoreStepModel::Done(Err(reason@)) && restore_step(
            Some(kind),
            has_target,
            trim,
            Some(ApplyReply::Unavailable),
        ) == RestoreStepModel::Done(Err("Restore apply unavailable for this checkpoint."@)),
        !names_opencode(kind) && has_target ==> restore_step(
            Some(kind),
            has_target,
            None,
            Some(ApplyReply::Applied),
        ) == RestoreStepModel::Trim && restore_step(
            Some(kind),
            has_target,
            Some(Err(err)),
            Some(ApplyReply::Applied),
        ) == RestoreStepModel::Done(Err("Restore applied, but "@ + err)),
        restore_step(None, has_target, trim, None) == RestoreStepModel::Apply,
        has_target ==> restore_step(None, has_target, trim, Some(ApplyReply::Applied))
            == RestoreStepModel::Done(
            Err("Restore applied, but chat trim failed: runtime client unavailable."@),
        ),
{
}

/// A runtime is an OpenCode one whatever the case of the letters of its name.
pub proof fn lemma_opencode_name(kind: Seq<char>)
    ensures
        names_opencode(kind) <==> ascii_lower(kind) == "opencode"@,
{
    reveal_strlit("opencode");
    let name = "opencode"@;
    assert(ascii_lower(name) =~= name) by {
        assert forall|i: int| 0 <= i < name.len() implies crate::text::ascii_lower_char(name[i])
            == name[i] by {}
    }
}

/// The undo of an OpenCode restore takes the rollback back, between two resumes where the workspace
/// is known, and shows the thread that comes of it; other runtimes are not asked for anything.
pub proof fn lemma_undo_dialogue(
    kind: Seq<char>,
    has_workspace: bool,
    first: Result<JsonTree, Seq<char>>,
    thread: JsonTree,
    err: Seq<char>,
    resumed: Result<JsonTree, Seq<char>>,
    replies: Seq<Result<JsonTree, Seq<char>>>,
)
    ensures
        ({
            let begun = if has_workspace {
                seq![first]
            } else {
                Seq::empty()
            };
            let back = begun.push(Ok(thread));
            let done = UndoStepModel::Done(
                Ok(
                    ChatModel {
                        status: " • OpenCode restore undone"@,
                        sync: Some((thread, true)),
                    },
                ),
            );
            &&& names_opencode(kind) ==> {
                &&& has_workspace ==> undo_step(Some(kind), true, Seq::empty())
                    == UndoStepModel::Resume
                &&& undo_step(Some(kind), has_workspace, begun) == UndoStepModel::Unrollback
                &&& undo_step(Some(kind), has_workspace, begun.push(Err(err)))
                    == UndoStepModel::Done(Err("OpenCode undo failed: "@ + err))
                &&& has_workspace ==> undo_step(Some(kind), true, back) == UndoStepModel::Resume
                &&& has_workspace ==> undo_step(Some(kind), true, back.push(resumed)) == done
                &&& !has_workspace ==> undo_step(Some(kind), false, back) == done
            }
            &&& !names_opencode(kind) ==> undo_step(Some(kind), has_workspace, replies)
                == UndoStepModel::Done(
                Err("OpenCode restore undo is only available for OpenCode threads."@),
            )
            &&& undo_step(None, has_workspace, replies) == UndoStepModel::Done(
                Err("OpenCode restore undo requires a running runtime client."@),
            )
        }),
{
    let begun = if has_workspace {
        seq![first]
    } else {
        Seq::<Result<JsonTree, Seq<char>>>::empty()
    };
    let back = begun.push(Ok(thread));
    assert(begun.push(Err(err))[begun.len() as int] == Err::<JsonTree, Seq<char>>(err));
    assert(back[begun.len() as int] == Ok::<JsonTree, Seq<char>>(thread));
    assert(back.push(resumed)[begun.len() as int] == Ok::<JsonTree, Seq<char>>(thread));
}

/// With an OpenCode runtime the files are restored only after the chat was trimmed; with another
/// runtime the chat is trimmed only after the files were restored.
pub proof fn lemma_restore_order(
    backend_kind: Option<Seq<char>>,
    has_target: bool,
    trim: Option<Result<Seq<char>, Seq<char>>>,
    apply: Option<ApplyReply>,
)
    ensures
        ({
            let opencode = (backend_kind matches Some(kind) && names_opencode(kind));
            let step = restore_step(backend_kind, has_target, trim, apply);
            &&& step is Apply && opencode ==> (trim matches Some(r) && r is Ok)
            &&& step is Trim && !opencode ==> apply == Some(ApplyReply::Applied)
            &&& step is Trim ==> has_target && backend_kind is Some
        }),
{
}

// ---------------------------------------------------------------------------------------------
// Restoring with the chat on screen
// ---------------------------------------------------------------------------------------------
/// What follows a restore of the files when the chat is on screen.
pub enum SyncStep {
    Ask(Ask),
    /// Show this thread, or store it where no window is open, and say whether that worked.
    Show(Json),
    Done(Result<SyncOutcome, String>),
}

/// What is said of the chat, and whether the prompt of the target turn is put into the composer.
#[derive(Debug)]
pub struct SyncOutcome {
    pub status: String,
    pub allow_prefill: bool,
}

#[verifier::ext_equal]
pub ghost enum SyncStepModel {
    Ask(Ask),
    Show(JsonTree),
    Done(Result<(Seq<char>, bool), Seq<char>>),
}

impl SyncStep {
    pub open spec fn model(self) -> SyncStepModel {
        match self {
            SyncStep::Ask(a) => SyncStepModel::Ask(a),
            SyncStep::Show(j) => SyncStepModel::Show(tree(j)),
            SyncStep::Done(r) => SyncStepModel::Done(
                match r {
                    Ok(o) => Ok((o.status@, o.allow_prefill)),
                    Err(e) => Err(e@),
                },
            ),
        }
    }
}

/// What is known when the chat on screen follows a restore of the files.
pub struct SyncContext {
    pub target_turn_id: Option<String>,
    pub has_client: bool,
    pub supports_rollback: bool,
    pub has_workspace: bool,
    pub has_window: bool,
    pub iso: IsoTimes,
}

pub open spec fn sync_failed(err: Seq<char>) -> SyncStepModel {
    SyncStepModel::Done(Err("Restore applied, but chat trim failed: "@ + err))
}

/// Once the thread was rolled back: it is resumed where its workspace is known, read again, and
/// shown.
pub open spec fn sync_rolled(
    c: SyncContext,
    count: int,
    rolled: JsonTree,
    replies: Seq<Result<JsonTree, Seq<char>>>,
    at: int,
    shown: Option<bool>,
) -> SyncStepModel {
    if c.has_workspace && replies.len() <= at {
        SyncStepModel::Ask(Ask::Resume)
    } else {
        let next = if c.has_workspace {
            at + 1
        } else {
            at
        };
        if replies.len() <= next {
            SyncStepModel::Ask(Ask::Read)
        } else {
            match shown {
                None => SyncStepModel::Show(
                    match replies[next] {
                        Ok(thread) => thread,
                        Err(_) => rolled,
                    },
                ),
                Some(true) => SyncStepModel::Done(Ok((trimmed_status(count), true))),
                Some(false) => SyncStepModel::Done(
                    Err(
                        if c.has_window {
                            "Restore applied and chat trimmed, but failed to refresh visible chat UI."@
                        } else {
                            "Restore applied and chat trimmed, but failed to persist local chat history."@
                        },
                    ),
                ),
            }
        }
    }
}

/// What follows a restore of the files when the chat is on screen.
pub open spec fn sync_step(
    c: SyncContext,
    replies: Seq<Result<JsonTree, Seq<char>>>,
    shown: Option<bool>,
) -> SyncStepModel {
    match c.target_turn_id {
        None => SyncStepModel::Done(Ok((skipped_status(), false))),
        Some(target) => if !c.has_client {
            SyncStepModel::Done(
                Err("Restore applied, but chat trim failed: runtime client unavailable."@),
            )
        } else if !c.supports_rollback {
            SyncStepModel::Done(
                Ok((" • Chat trim skipped (runtime does not support rollback)"@, false)),
            )
        } else {
            match read_talk(c.has_workspace, replies, 0) {
                Talk::Ask(a) => SyncStepModel::Ask(a),
                Talk::Failed(err) => sync_failed(err),
                Talk::Got(thread, at) => match trimmed_thread(thread, target@, c.iso) {
                    Err(err) => sync_failed(err),
                    Ok(cut) => if cut.rollback_count == 0 {
                        SyncStepModel::Done(Ok((" • Chat already at restored point"@, false)))
                    } else {
                        match rollback_talk(
                            cut.rollback_count as usize,
                            c.has_workspace,
                            replies,
                            at,
                        ) {
                            Talk::Ask(a) => SyncStepModel::Ask(a),
                            Talk::Failed(err) => sync_failed(err),
                            Talk::Got(rolled, next) => sync_rolled(
                                c,
                                cut.rollback_count,
                                rolled,
                                replies,
                                next,
                                shown,
                            ),
                        }
                    },
                },
            }
        },
    }
}

fn failed_sync(err: &str) -> (s: SyncStep)
    ensures
        s.model() == sync_failed(err@),
{
    SyncStep::Done(Err(concat("Restore applied, but chat trim failed: ", err)))
}

/// What follows a restore of the files when the chat is on screen, given the replies of the
/// runtime so far and whether the thread could be shown.
pub fn apply_restore_with_chat_sync(
    c: &SyncContext,
    replies: &Vec<Result<Json, String>>,
    shown: Option<bool>,
) -> (s: SyncStep)
    ensures
        s.model() == sync_step(*c, thread_replies(replies@), shown),
{
    let ghost models = thread_replies(replies@);
    let target = match &c.target_turn_id {
        Some(target) => target.as_str(),
        None => {
            return SyncStep::Done(
                Ok(
                    SyncOutcome {
                        status: owned(" • Chat trim skipped (no remote turn context)"),
                        allow_prefill: false,
                    },
                ),
            );
        },
    };
    if !c.has_client {
        return SyncStep::Done(
            Err(owned("Restore applied, but chat trim failed: runtime client unavailable.")),
        );
    }
    if !c.supports_rollback {
        return SyncStep::Done(
            Ok(
                SyncOutcome {
                    status: owned(" • Chat trim skipped (runtime does not support rollback)"),
                    allow_prefill: false,
                },
            ),
        );
    }
    let (index, at) = match read_thread_for_rollback(c.has_workspace, replies, 0) {
        Talked::Ask(a) => return SyncStep::Ask(a),
        Talked::Failed(err) => return failed_sync(err.as_str()),
        Talked::Got(k, n) => (k, n),
    };
    let thread = match &replies[index] {
        Ok(thread) => thread,
        Err(err) => return failed_sync(err.as_str()),
    };
    let cut = match build_trimmed_thread_view(thread, target, &c.iso) {
        Ok(cut) => cut,
        Err(err) => return failed_sync(err.as_str()),
    };
    if cut.rollback_count == 0 {
        return SyncStep::Done(
            Ok(
                SyncOutcome {
                    status: owned(" • Chat already at restored point"),
                    allow_prefill: false,
                },
            ),
        );
    }
    let (rolled, next) = match roll_back(cut.rollback_count, c.has_workspace, replies, at) {
        Talked::Ask(a) => return SyncStep::Ask(a),
        Talked::Failed(err) => return failed_sync(err.as_str()),
        Talked::Got(k, n) => (k, n),
    };
    if c.has_workspace && replies.len() <= next {
        return SyncStep::Ask(Ask::Resume);
    }
    let last: usize = if c.has_workspace {
        next + 1
    } else {
        next
    };
    if replies.len() <= last {
        return SyncStep::Ask(Ask::Read);
    }
    assert(models[last as int] == thread_reply(replies@[last as int]));
    match shown {
        None => {
            match &replies[last] {
                Ok(thread) => SyncStep::Show(thread.copy()),
                Err(_) => match &replies[rolled] {
                    Ok(thread) => SyncStep::Show(thread.copy()),
                    Err(err) => failed_sync(err.as_str()),
                },
            }
        },
        Some(worked) => {
            if worked {
                let status = concat3(
                    " • Chat trimmed: ",
                    decimal_usize(cut.rollback_count).as_str(),
                    " turn(s)",
                );
                SyncStep::Done(Ok(SyncOutcome { status, allow_prefill: true }))
            } else if c.has_window {
                SyncStep::Done(
                    Err(
                        owned(
                            "Restore applied and chat trimmed, but failed to refresh visible chat UI.",
                        ),
                    ),
                )
            } else {
                SyncStep::Done(
                    Err(
                        owned(
                            "Restore applied and chat trimmed, but failed to persist local chat history.",
                        ),
                    ),
                )
            }
        },
    }
}

/// Where the thread on screen holds the target turn, it is trimmed in this dialogue: the thread is
/// read, the runtime rolls back by the target and the turns after it, the thread is resumed where
/// its workspace is known, read once more and shown.
pub proof fn lemma_sync_dialogue(
    c: SyncContext,
    thread: JsonTree,
    turns: Seq<JsonTree>,
    index: int,
    rolled: JsonTree,
    resumed: Result<JsonTree, Seq<char>>,
    again: Result<JsonTree, Seq<char>>,
)
    requires
        c.has_client,
        c.supports_rollback,
        c.target_turn_id is Some,
        is_target(thread, turns, index, c.target_turn_id->0@),
    ensures
        ({
            let n = from_then_on(turns, c.iso, index).len();
            let read = seq![Ok::<JsonTree, Seq<char>>(thread)];
            let back = read.push(Ok(rolled));
            let ready = if c.has_workspace {
                back.push(resumed)
            } else {
                back
            };
            let end = ready.push(again);
            let said = " • Chat trimmed: "@ + decimal(n) + " turn(s)"@;
            &&& n >= 1
            &&& sync_step(c, Seq::empty(), None) == SyncStepModel::Ask(Ask::Read)
            &&& sync_step(c, read, None) == SyncStepModel::Ask(Ask::Rollback(n as usize))
            &&& c.has_workspace ==> sync_step(c, back, None) == SyncStepModel::Ask(Ask::Resume)
            &&& sync_step(c, ready, None) == SyncStepModel::Ask(Ask::Read)
            &&& sync_step(c, end, None) == SyncStepModel::Show(
                match again {
                    Ok(held) => held,
                    Err(_) => rolled,
                },
            )
            &&& sync_step(c, end, Some(true)) == SyncStepModel::Done(Ok((said, true)))
            &&& c.has_window ==> sync_step(c, end, Some(false)) == SyncStepModel::Done(
                Err(
                    "Restore applied and chat trimmed, but failed to refresh visible chat UI."@,
                ),
            )
            &&& !c.has_window ==> sync_step(c, end, Some(false)) == SyncStepModel::Done(
                Err(
                    "Restore applied and chat trimmed, but failed to persist local chat history."@,
                ),
            )
        }),
{
    let target = c.target_turn_id->0@;
    lemma_target_cut(thread, turns, index, target, c.iso);
    let read = seq![Ok::<JsonTree, Seq<char>>(thread)];
    let back = read.push(Ok(rolled));
    assert(back[0] == Ok::<JsonTree, Seq<char>>(thread));
    assert(back[1] == Ok::<JsonTree, Seq<char>>(rolled));
    let ready = if c.has_workspace {
        back.push(resumed)
    } else {
        back
    };
    assert(ready[0] == Ok::<JsonTree, Seq<char>>(thread));
    assert(ready[1] == Ok::<JsonTree, Seq<char>>(rolled));
    let end = ready.push(again);
    assert(end[0] == Ok::<JsonTree, Seq<char>>(thread));
    assert(end[1] == Ok::<JsonTree, Seq<char>>(rolled));
    assert(end[ready.len() as int] == again);
}

/// A thread on screen that the runtime does not hold is resumed before it is read or rolled back
/// again, where its workspace is known; when that works, all goes on as if it had worked at once.
/// In all other cases the error is told.
pub proof fn lemma_sync_tries_again(
    c: SyncContext,
    thread: JsonTree,
    turns: Seq<JsonTree>,
    index: int,
    err: Seq<char>,
    resumed: JsonTree,
    again: Seq<char>,
    tail: Seq<Result<JsonTree, Seq<char>>>,
    shown: Option<bool>,
)
    requires
        c.has_client,
        c.supports_rollback,
        c.target_turn_id is Some,
        is_target(thread, turns, index, c.target_turn_id->0@),
    ensures
        ({
            let failed = |text: Seq<char>|
                SyncStepModel::Done(Err("Restore applied, but chat trim failed: "@ + text));
            let missed = seq![Err::<JsonTree, Seq<char>>(err)];
            let held = missed.push(Ok(resumed));
            let retried = c.has_workspace && says_not_held(err);
            &&& !retried ==> sync_step(c, missed, shown) == failed(err)
            &&& retried ==> sync_step(c, missed, shown) == SyncStepModel::Ask(Ask::Resume)
            &&& retried ==> sync_step(c, missed.push(Err(again)), shown) == failed(
                "failed to materialize thread for rollback: "@ + again,
            )
            &&& retried ==> sync_step(c, held, shown) == SyncStepModel::Ask(Ask::Read)
            &&& retried ==> sync_step(c, held.push(Err(again)), shown) == failed(again)
            &&& retried && tail.len() > 0 && tail[0] is Ok ==> sync_step(c, held + tail, shown)
                == sync_step(c, tail, shown)
        }),
        ({
            let failed = |text: Seq<char>|
                SyncStepModel::Done(Err("Restore applied, but chat trim failed: "@ + text));
            let n = from_then_on(turns, c.iso, index).len();
            let read = seq![Ok::<JsonTree, Seq<char>>(thread)];
            let missed = read.push(Err(err));
            let held = missed.push(Ok(resumed));
            let retried = c.has_workspace && (says_not_held(err) || says_not_found(err));
            &&& !retried ==> sync_step(c, missed, shown) == failed(err)
            &&& retried ==> sync_step(c, missed, shown) == SyncStepModel::Ask(Ask::Resume)
            &&& retried ==> sync_step(c, missed.push(Err(again)), shown) == failed(
                err + "; resume before rollback failed: "@ + again,
            )
            &&& retried ==> sync_step(c, held, shown) == SyncStepModel::Ask(
                Ask::Rollback(n as usize),
            )
            &&& retried ==> sync_step(c, held.push(Err(again)), shown) == failed(again)
            &&& retried && tail.len() > 0 && tail[0] is Ok ==> sync_step(c, held + tail, shown)
                == sync_step(c, read + tail, shown)
        }),
{
    lemma_not_held(err);
    lemma_target_cut(thread, turns, index, c.target_turn_id->0@, c.iso);
    let missed = seq![Err::<JsonTree, Seq<char>>(err)];
    let held = missed.push(Ok(resumed));
    assert(missed.push(Err(again))[1] == Err::<JsonTree, Seq<char>>(again));
    assert(held.push(Err(again))[1] == Ok::<JsonTree, Seq<char>>(resumed));
    assert(held.push(Err(again))[2] == Err::<JsonTree, Seq<char>>(again));
    let long = held + tail;
    assert(long[0] == Err::<JsonTree, Seq<char>>(err));
    assert(long[1] == Ok::<JsonTree, Seq<char>>(resumed));
    if tail.len() > 0 && tail[0] is Ok {
        assert(long[2] == tail[0]);
        assert forall|i: int| 1 <= i < tail.len() implies long[i + 2] == #[trigger] tail[i] by {}
        if let Ok(cut) = trimmed_thread(tail[0]->Ok_0, c.target_turn_id->0@, c.iso) {
            lemma_rollback_shifts(cut.rollback_count as usize, c.has_workspace, tail, long, 1);
        }
    }
    let read = seq![Ok::<JsonTree, Seq<char>>(thread)];
    let missed2 = read.push(Err(err));
    let held2 = missed2.push(Ok(resumed));
    assert(missed2[1] == Err::<JsonTree, Seq<char>>(err));
    assert(missed2.push(Err(again))[1] == Err::<JsonTree, Seq<char>>(err));
    assert(missed2.push(Err(again))[2] == Err::<JsonTree, Seq<char>>(again));
    assert(held2[1] == Err::<JsonTree, Seq<char>>(err));
    assert(held2[2] == Ok::<JsonTree, Seq<char>>(resumed));
    assert(held2.push(Err(again))[1] == Err::<JsonTree, Seq<char>>(err));
    assert(held2.push(Err(again))[2] == Ok::<JsonTree, Seq<char>>(resumed));
    assert(held2.push(Err(again))[3] == Err::<JsonTree, Seq<char>>(again));
    let long2 = held2 + tail;
    let short2 = read + tail;
    assert(long2[0] == Ok::<JsonTree, Seq<char>>(thread));
    assert(long2[1] == Err::<JsonTree, Seq<char>>(err));
    assert(long2[2] == Ok::<JsonTree, Seq<char>>(resumed));
    assert(short2[0] == Ok::<JsonTree, Seq<char>>(thread));
    if tail.len() > 0 {
        assert(long2[3] == tail[0] && short2[1] == tail[0]);
        assert forall|i: int| 1 <= i < short2.len() implies long2[i + 2] == #[trigger] short2[i] by {}
        if 2 < short2.len() {
            assert(long2[4] == short2[2]);
        }
        if 3 < short2.len() {
            assert(long2[5] == short2[3]);
        }
    }
}

/// A chat on screen is left alone where there is no target or the runtime cannot roll back, and
/// then no prompt is put into the composer; without a runtime, or without the target in the thread,
/// that is an error.
pub proof fn lemma_sync_refused(
    c: SyncContext,
    thread: JsonTree,
    turns: Seq<JsonTree>,
    replies: Seq<Result<JsonTree, Seq<char>>>,
    shown: Option<bool>,
)
    ensures
        c.target_turn_id is None ==> sync_step(c, replies, shown) == SyncStepModel::Done(
            Ok((" • Chat trim skipped (no remote turn context)"@, false)),
        ),
        c.target_turn_id is Some && !c.has_client ==> sync_step(c, replies, shown)
            == SyncStepModel::Done(
            Err("Restore applied, but chat trim failed: runtime client unavailable."@),
        ),
        c.target_turn_id is Some && c.has_client && !c.supports_rollback ==> sync_step(
            c,
            replies,
            shown,
        ) == SyncStepModel::Done(
            Ok((" • Chat trim skipped (runtime does not support rollback)"@, false)),
        ),
        c.target_turn_id is Some && c.has_client && c.supports_rollback && replies.len() > 0
            && replies[0] == Ok::<JsonTree, Seq<char>>(thread) && field_items(thread, "turns"@)
            == Some(turns) && (forall|j: int|
            0 <= j < turns.len() ==> field_str(#[trigger] turns[j], "id"@) != Some(
                c.target_turn_id->0@,
            )) ==> sync_step(c, replies, shown) == SyncStepModel::Done(
            Err(
                "Restore applied, but chat trim failed: "@
                    + "selected turn was not found in the remote thread."@,
            ),
        ),
{
    if field_items(thread, "turns"@) == Some(turns) && c.target_turn_id is Some {
        lemma_cut_target(thread, c.target_turn_id->0@, c.iso, turns, 0);
    }
}

/// The prompt that is put into the composer after a restore.
pub fn prefill_prompt<'a>(allow_prefill: bool, prompt: Option<&'a str>) -> (r: Option<&'a str>)
    ensures
        r == (if allow_prefill && (prompt matches Some(p) && trimmed(p@).len() > 0) {
            prompt
        } else {
            None
        }),
{
    match prompt {
        Some(p) => if allow_prefill && is_visible(p) {
            prompt
        } else {
            None
        },
        None => None,
    }
}

} // verus!
