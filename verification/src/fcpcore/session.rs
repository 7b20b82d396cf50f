//! Session routing: parses session commands (`new`, `open`, `save`,
//! `checkpoint`, `undo`, `redo`, `status`, `close`) and applies them to a
//! model through domain hooks, keeping the undo/redo event log.
use vstd::prelude::*;
use vstd::utf8::{encode_utf8, is_char_boundary};
use crate::fcpcore::tokenizer::{
    tokenize, tokens_of_text, string_views, is_key_value, parse_key_value, is_key_value_text,
    key_of, raw_value_of, strip_quotes_text,
};
use crate::fcpcore::event_log::{
    EventLog, EventLogModel, LogSlot, events_between, undo_walk, redo_walk, can_undo_to,
    checkpointed, cannot_undo_to_text, clones_of,
};
use crate::text::{
    chars_of, concat2, concat3, debug_quoted, debug_text, decimal, lowercase_of, string_from_range,
    text_eq, to_lowercase, usize_text,
};
use crate::text_map::{TextMap, text_values};

verus! {

/// Lifecycle hooks that a domain implements. A domain names what reversing
/// and replaying an event, and rebuilding the indices, make of a model (the
/// spec functions `reversed`, `replayed` and `rebuilt`), and its hooks do
/// that. For creating, opening and saving it names which answers it may give
/// to which arguments (`new_answer`, `open_answer`, `save_answer`), since
/// those may depend on more than the arguments, such as files.
pub trait SessionHooks {
    /// The model type for this domain.
    type Model;
    /// The event type for undo/redo.
    type Event: Clone;

    /// Whether `on_new` may answer `r` to `params`.
    spec fn new_answer(&self, params: &TextMap<String>, r: Result<Self::Model, String>) -> bool;

    /// Whether `on_open` may answer `r` to `path`.
    spec fn open_answer(&self, path: &str, r: Result<Self::Model, String>) -> bool;

    /// Whether `on_save` may answer `r` to saving `model` at `path`.
    spec fn save_answer(&self, model: &Self::Model, path: &str, r: Result<(), String>) -> bool;

    /// Creates a new empty model with the given params.
    fn on_new(&self, params: &TextMap<String>) -> (r: Result<Self::Model, String>)
        ensures
            self.new_answer(params, r),
    ;

    /// Opens a model from a file path.
    fn on_open(&self, path: &str) -> (r: Result<Self::Model, String>)
        ensures
            self.open_answer(path, r),
    ;

    /// Saves a model to a file path.
    fn on_save(&self, model: &Self::Model, path: &str) -> (r: Result<(), String>)
        ensures
            self.save_answer(model, path, r),
    ;

    /// The model that rebuilding the derived indices of `model` leaves.
    spec fn rebuilt(&self, model: Self::Model) -> Self::Model;

    /// Rebuilds derived indices after undo/redo.
    fn on_rebuild_indices(&self, model: &mut Self::Model)
        ensures
            *final(model) == self.rebuilt(*old(model)),
    ;

    /// Returns a compact digest string for drift detection.
    fn get_digest(&self, model: &Self::Model) -> String;

    /// The model that reversing `event` on `model` leaves.
    spec fn reversed(&self, event: Self::Event, model: Self::Model) -> Self::Model;

    /// The model that replaying `event` on `model` leaves.
    spec fn replayed(&self, event: Self::Event, model: Self::Model) -> Self::Model;

    /// Reverses a single event on the model (for undo).
    fn reverse(&self, event: &Self::Event, model: &mut Self::Model)
        ensures
            *final(model) == self.reversed(*event, *old(model)),
    ;

    /// Replays a single event on the model (for redo).
    fn replay(&self, event: &Self::Event, model: &mut Self::Model)
        ensures
            *final(model) == self.replayed(*event, *old(model)),
    ;
}

/// The model left by reversing `events` on `model`, in order.
pub open spec fn reversed_all<H: SessionHooks>(hooks: H, events: Seq<H::Event>, model: H::Model) -> H::Model
    decreases events.len(),
{
    if events.len() == 0 {
        model
    } else {
        hooks.reversed(events.last(), reversed_all(hooks, events.drop_last(), model))
    }
}

/// The model left by replaying `events` on `model`, in order.
pub open spec fn replayed_all<H: SessionHooks>(hooks: H, events: Seq<H::Event>, model: H::Model) -> H::Model
    decreases events.len(),
{
    if events.len() == 0 {
        model
    } else {
        hooks.replayed(events.last(), replayed_all(hooks, events.drop_last(), model))
    }
}

/// Routes session-level actions (new, open, save, checkpoint, undo, redo) to
/// the appropriate handler.
pub struct Session<H: SessionHooks> {
    pub model: Option<H::Model>,
    pub file_path: String,
    pub log: EventLog<H::Event>,
    pub hooks: H,
}

/// The model of an empty event log.
pub open spec fn empty_log<T>() -> EventLogModel<T> {
    EventLogModel { slots: Seq::empty(), cursor: 0, checkpoints: Map::empty() }
}

/// `"s"` unless `n` is one.
pub open spec fn plural_text(n: nat) -> Seq<char> {
    if n != 1 {
        "s"@
    } else {
        ""@
    }
}

/// `"N event"` or `"N events"`.
pub open spec fn events_text(n: nat) -> Seq<char> {
    decimal(n) + " event"@ + plural_text(n)
}

/// The parameters and positionals of a `new` command's arguments: `key:value`
/// arguments set their key (quotes stripped), the rest are positionals.
pub open spec fn new_fields(args: Seq<Seq<char>>) -> (Map<Seq<char>, Seq<char>>, Seq<Seq<char>>)
    decreases args.len(),
{
    if args.len() == 0 {
        (Map::empty(), seq![])
    } else {
        let (p, pos) = new_fields(args.drop_last());
        let t = args.last();
        if is_key_value_text(t) {
            (p.insert(key_of(t), strip_quotes_text(raw_value_of(t))), pos)
        } else {
            (p, pos.push(t))
        }
    }
}

/// The parameters handed to `on_new`: those of the arguments, with `title` set
/// to the first positional if there is one.
pub open spec fn new_params(args: Seq<Seq<char>>) -> Map<Seq<char>, Seq<char>> {
    let (p, pos) = new_fields(args);
    if pos.len() > 0 {
        p.insert("title"@, pos[0])
    } else {
        p
    }
}

/// The title that a `new` command reports: the non-empty `title` parameter,
/// or `Untitled`.
pub open spec fn new_title(params: Map<Seq<char>, Seq<char>>) -> Seq<char> {
    if params.dom().contains("title"@) && params["title"@].len() > 0 {
        params["title"@]
    } else {
        "Untitled"@
    }
}

/// The path a `save` command writes to: the value of its last `as:` argument,
/// or the session's current file path.
pub open spec fn save_target(current: Seq<char>, args: Seq<Seq<char>>) -> Seq<char>
    decreases args.len(),
{
    if args.len() == 0 {
        current
    } else {
        let t = args.last();
        if is_key_value_text(t) && key_of(t) == "as"@ {
            strip_quotes_text(raw_value_of(t))
        } else {
            save_target(current, args.drop_last())
        }
    }
}

/// The checkpoint name of an `undo` argument of the form `to:NAME`, if it has
/// that form and is longer than `to:`.
pub open spec fn undo_to_name(t: Seq<char>) -> Option<Seq<char>> {
    if t.len() >= 4 && t.take(3) == "to:"@ {
        Some(t.skip(3))
    } else {
        None
    }
}

/// An `undo` argument whose first three bytes can be cut off as a string
/// slice (the argument is at most three bytes long, or its fourth byte starts
/// a character).
pub open spec fn undo_arg_sliceable(t: Seq<char>) -> bool {
    encode_utf8(t).len() <= 3 || is_char_boundary(encode_utf8(t), 3)
}

/// The action can be dispatched: an `undo` on a session with a model does not
/// have an argument whose first three bytes end inside a character.
pub open spec fn dispatchable<H: SessionHooks>(s: Session<H>, action: Seq<char>) -> bool {
    let toks = tokens_of_text(action);
    !(toks.len() >= 2 && lowercase_of(toks[0]) == "undo"@ && s.model is Some
        && !undo_arg_sliceable(toks[1]))
}

impl<H: SessionHooks> Session<H> {
    /// The session only changed its log, to `log`.
    pub open spec fn only_log_changed(self, before: Session<H>, log: EventLogModel<H::Event>) -> bool {
        &&& self.model == before.model
        &&& self.file_path == before.file_path
        &&& self.hooks == before.hooks
        &&& self.log@ == log
        &&& self.log.wf()
    }

    /// The session replaced its model, cleared its log and set its file path
    /// to `path`.
    pub open spec fn restarted(self, before: Session<H>, path: Seq<char>) -> bool {
        &&& self.model is Some
        &&& self.file_path@ == path
        &&& self.hooks == before.hooks
        &&& self.log@ == empty_log::<H::Event>()
        &&& self.log.wf()
    }

    /// The session applied hooks to its model and moved its log to `log`.
    pub open spec fn model_updated(self, before: Session<H>, log: EventLogModel<H::Event>) -> bool {
        &&& self.model is Some
        &&& self.file_path == before.file_path
        &&& self.hooks == before.hooks
        &&& self.log@ == log
        &&& self.log.wf()
    }

    /// The session's model is its earlier model with clones of `events`
    /// reversed on it in order, then its indices rebuilt.
    pub open spec fn reversed_events(self, before: Session<H>, events: Seq<H::Event>) -> bool {
        exists|cl: Seq<H::Event>|
            clones_of(events, cl) && self.model == Some(
                before.hooks.rebuilt(reversed_all(before.hooks, cl, before.model->Some_0)),
            )
    }

    /// The session's model is its earlier model with clones of `events`
    /// replayed on it in order, then its indices rebuilt.
    pub open spec fn replayed_events(self, before: Session<H>, events: Seq<H::Event>) -> bool {
        exists|cl: Seq<H::Event>|
            clones_of(events, cl) && self.model == Some(
                before.hooks.rebuilt(replayed_all(before.hooks, cl, before.model->Some_0)),
            )
    }

    /// What a `new` command with arguments `args` may answer and leave: a fresh
    /// model with an empty log and no file path, or an error from the hook with
    /// nothing changed.
    pub open spec fn new_outcome(self, before: Session<H>, args: Seq<Seq<char>>, r: Seq<char>) -> bool {
        exists|p: TextMap<String>, a: Result<H::Model, String>|
            #![trigger before.hooks.new_answer(&p, a)]
            text_values(p@) == new_params(args) && before.hooks.new_answer(&p, a) && match a {
                Ok(m) => self.restarted(before, ""@) && self.model == Some(m) && r == "new "@
                    + debug_text(new_title(new_params(args))) + " created"@,
                Err(e) => self == before && r == "error: "@ + e@,
            }
    }

    /// What an `open` command may answer and leave.
    pub open spec fn open_outcome(self, before: Session<H>, args: Seq<Seq<char>>, r: Seq<char>) -> bool {
        if args.len() == 0 {
            self == before && r == "open requires a file path"@
        } else {
            exists|p: &str, a: Result<H::Model, String>|
                #![trigger before.hooks.open_answer(p, a)]
                p@ == args[0] && before.hooks.open_answer(p, a) && match a {
                    Ok(m) => self.restarted(before, args[0]) && self.model == Some(m) && r == "opened "@
                        + debug_text(args[0]),
                    Err(e) => self == before && r == "error: "@ + e@,
                }
        }
    }

    /// What a `save` command may answer and leave.
    pub open spec fn save_outcome(self, before: Session<H>, args: Seq<Seq<char>>, r: Seq<char>) -> bool {
        let target = save_target(before.file_path@, args);
        if before.model is None {
            self == before && r == "error: no model to save"@
        } else if target.len() == 0 {
            self == before && r == "error: no file path. Use save as:./file"@
        } else {
            exists|p: &str, a: Result<(), String>|
                #![trigger before.hooks.save_answer(&before.model->Some_0, p, a)]
                p@ == target && before.hooks.save_answer(&before.model->Some_0, p, a) && match a {
                    Ok(_) => self.model == before.model && self.hooks == before.hooks && self.log
                        == before.log && self.file_path@ == target && r == "saved "@ + debug_text(
                        target,
                    ),
                    Err(e) => self == before && r == "error: "@ + e@,
                }
        }
    }

    /// What a `checkpoint` command answers and leaves.
    pub open spec fn checkpoint_outcome(self, before: Session<H>, args: Seq<Seq<char>>, r: Seq<char>) -> bool {
        if args.len() == 0 {
            self == before && r == "checkpoint requires a name"@
        } else {
            &&& self.only_log_changed(before, checkpointed(before.log@, args[0]))
            &&& r == "checkpoint "@ + debug_text(args[0]) + " created"@
        }
    }

    /// What an `undo` command answers and leaves.
    pub open spec fn undo_outcome(self, before: Session<H>, args: Seq<Seq<char>>, r: Seq<char>) -> bool {
        let m = before.log@;
        if before.model is None {
            self == before && r == "nothing to undo"@
        } else if args.len() > 0 && undo_to_name(args[0]) is Some {
            let name = undo_to_name(args[0])->Some_0;
            if name.len() == 0 {
                self == before && r == "undo to: requires a checkpoint name"@
            } else if can_undo_to(m, name) {
                let target = m.checkpoints[name];
                let n = events_between(m.slots, target as int, m.cursor as int).len();
                &&& self.model_updated(before, EventLogModel { cursor: target as nat, ..m })
                &&& self.reversed_events(before, events_between(m.slots, target as int, m.cursor as int).reverse())
                &&& r == "undone "@ + events_text(n) + " to checkpoint "@ + debug_text(name)
            } else {
                self == before && r == cannot_undo_to_text(name)
            }
        } else {
            let (evs, pos) = undo_walk(m.slots, m.cursor as int, 1);
            if evs.len() == 0 {
                self.only_log_changed(before, EventLogModel { cursor: pos as nat, ..m })
                    && r == "nothing to undo"@
            } else {
                &&& self.model_updated(before, EventLogModel { cursor: pos as nat, ..m })
                &&& self.reversed_events(before, evs)
                &&& r == "undone "@ + events_text(evs.len())
            }
        }
    }

    /// What a `redo` command answers and leaves.
    pub open spec fn redo_outcome(self, before: Session<H>, r: Seq<char>) -> bool {
        let m = before.log@;
        if before.model is None {
            self == before && r == "nothing to redo"@
        } else {
            let (evs, pos) = redo_walk(m.slots, m.cursor as int, 1);
            if evs.len() == 0 {
                self.only_log_changed(before, EventLogModel { cursor: pos as nat, ..m })
                    && r == "nothing to redo"@
            } else {
                &&& self.model_updated(before, EventLogModel { cursor: pos as nat, ..m })
                &&& self.replayed_events(before, evs)
                &&& r == "redone "@ + events_text(evs.len())
            }
        }
    }

    /// What `dispatch(action)` may answer and leave, by command.
    pub open spec fn dispatch_outcome(self, before: Session<H>, action: Seq<char>, r: Seq<char>) -> bool {
        let toks = tokens_of_text(action);
        if toks.len() == 0 {
            self == before && r == "empty action"@
        } else {
            let cmd = lowercase_of(toks[0]);
            let args = toks.drop_first();
            if cmd == "new"@ {
                self.new_outcome(before, args, r)
            } else if cmd == "open"@ {
                self.open_outcome(before, args, r)
            } else if cmd == "save"@ {
                self.save_outcome(before, args, r)
            } else if cmd == "checkpoint"@ {
                self.checkpoint_outcome(before, args, r)
            } else if cmd == "undo"@ {
                self.undo_outcome(before, args, r)
            } else if cmd == "redo"@ {
                self.redo_outcome(before, r)
            } else if cmd == "status"@ {
                self == before && r == "status: placeholder"@
            } else if cmd == "close"@ {
                self == before && r == "close: placeholder"@
            } else {
                self == before && r == "unknown session action "@ + debug_text(cmd)
            }
        }
    }

    /// Creates a new session with the given hooks, no model and no file path.
    pub fn new(hooks: H) -> (s: Self)
        ensures
            s.model is None,
            s.file_path@ == Seq::<char>::empty(),
            s.log@ == empty_log::<H::Event>(),
            s.log.wf(),
    {
        Session { model: None, file_path: String::new(), log: EventLog::new(), hooks }
    }

    /// Applies the result of `on_new`: on success the session takes the new
    /// model, clears its log and file path and reports the title; on failure
    /// it reports the hook's error and changes nothing.
    pub fn finish_new(&mut self, params: &TextMap<String>, outcome: Result<H::Model, String>) -> (r: String)
        ensures
            match outcome {
                Ok(m) => {
                    &&& final(self).model == Some(m)
                    &&& final(self).restarted(*old(self), ""@)
                    &&& r@ == "new "@ + debug_text(new_title(text_values(params@))) + " created"@
                },
                Err(e) => *final(self) == *old(self) && r@ == "error: "@ + e@,
            },
    {
        match outcome {
            Ok(model) => {
                self.model = Some(model);
                self.log = EventLog::new();
                self.file_path = String::new();
                let title = match params.get("title") {
                    Some(t) => {
                        if !t.as_str().is_empty() {
                            t.clone()
                        } else {
                            String::from_str("Untitled")
                        }
                    },
                    None => String::from_str("Untitled"),
                };
                assert(title@ == new_title(text_values(params@)));
                assert(self.log@ == empty_log::<H::Event>());
                proof {
                    reveal_strlit("");
                }
                assert(self.file_path@ == ""@);
                assert(self.model is Some);
                assert(self.hooks == old(self).hooks);
                assert(self.log.wf());
                let r = concat3("new ", debug_quoted(title.as_str()).as_str(), " created");
                assert(r@ == "new "@ + debug_text(new_title(text_values(params@))) + " created"@);
                r
            },
            Err(e) => concat2("error: ", e.as_str()),
        }
    }

    /// Applies the result of `on_open` for `path`: on success the session
    /// takes the opened model, clears its log and remembers the path; on
    /// failure it reports the hook's error and changes nothing.
    pub fn finish_open(&mut self, path: &str, outcome: Result<H::Model, String>) -> (r: String)
        ensures
            match outcome {
                Ok(m) => {
                    &&& final(self).model == Some(m)
                    &&& final(self).restarted(*old(self), path@)
                    &&& r@ == "opened "@ + debug_text(path@)
                },
                Err(e) => *final(self) == *old(self) && r@ == "error: "@ + e@,
            },
    {
        match outcome {
            Ok(model) => {
                self.model = Some(model);
                self.log = EventLog::new();
                self.file_path = String::from_str(path);
                concat2("opened ", debug_quoted(path).as_str())
            },
            Err(e) => concat2("error: ", e.as_str()),
        }
    }

    /// Applies the result of `on_save` to `path`: on success the session
    /// remembers the path; on failure it reports the hook's error and changes
    /// nothing.
    pub fn finish_save(&mut self, path: String, outcome: Result<(), String>) -> (r: String)
        ensures
            match outcome {
                Ok(_) => {
                    &&& final(self).model == old(self).model
                    &&& final(self).hooks == old(self).hooks
                    &&& final(self).log == old(self).log
                    &&& final(self).file_path@ == path@
                    &&& r@ == "saved "@ + debug_text(path@)
                },
                Err(e) => *final(self) == *old(self) && r@ == "error: "@ + e@,
            },
    {
        match outcome {
            Ok(()) => {
                let r = concat2("saved ", debug_quoted(path.as_str()).as_str());
                self.file_path = path;
                r
            },
            Err(e) => concat2("error: ", e.as_str()),
        }
    }

    /// Parses and executes a session command string.
    ///
    /// Commands: `new "Title" [params...]`, `open PATH`, `save`, `save as:PATH`,
    /// `checkpoint NAME`, `undo`, `undo to:NAME`, `redo`, `status`, `close`.
    /// The command word is matched in lower case.
    pub fn dispatch(&mut self, action: &str) -> (r: String)
        requires
            old(self).log.wf(),
            dispatchable(*old(self), action@),
        ensures
            final(self).log.wf(),
            final(self).dispatch_outcome(*old(self), action@, r@),
    {
        let tokens = tokenize(action);
        let ghost toks = string_views(tokens@);
        assert(toks.len() == tokens@.len());
        if tokens.len() == 0 {
            return String::from_str("empty action");
        }
        let cmd = to_lowercase(tokens[0].as_str());
        if text_eq(cmd.as_str(), "new") {
            self.dispatch_new(&tokens)
        } else if text_eq(cmd.as_str(), "open") {
            self.dispatch_open(&tokens)
        } else if text_eq(cmd.as_str(), "save") {
            self.dispatch_save(&tokens)
        } else if text_eq(cmd.as_str(), "checkpoint") {
            self.dispatch_checkpoint(&tokens)
        } else if text_eq(cmd.as_str(), "undo") {
            self.dispatch_undo(&tokens)
        } else if text_eq(cmd.as_str(), "redo") {
            self.dispatch_redo()
        } else if text_eq(cmd.as_str(), "status") {
            self.dispatch_status()
        } else if text_eq(cmd.as_str(), "close") {
            self.dispatch_close()
        } else {
            concat2("unknown session action ", debug_quoted(cmd.as_str()).as_str())
        }
    }

    fn dispatch_new(&mut self, tokens: &Vec<String>) -> (r: String)
        requires
            tokens@.len() >= 1,
            old(self).log.wf(),
        ensures
            final(self).log.wf(),
            final(self).new_outcome(*old(self), string_views(tokens@).drop_first(), r@),
    {
        let params = build_new_params(tokens);
        let outcome = self.hooks.on_new(&params);
        let ghost a = outcome;
        let ghost before = *self;
        let r = self.finish_new(&params, outcome);
        assert(before.hooks.new_answer(&params, a));
        r
    }

    fn dispatch_open(&mut self, tokens: &Vec<String>) -> (r: String)
        requires
            tokens@.len() >= 1,
            old(self).log.wf(),
        ensures
            final(self).log.wf(),
            final(self).open_outcome(*old(self), string_views(tokens@).drop_first(), r@),
    {
        if tokens.len() < 2 {
            return String::from_str("open requires a file path");
        }
        let path = tokens[1].as_str();
        let outcome = self.hooks.on_open(path);
        let ghost a = outcome;
        let ghost before = *self;
        let r = self.finish_open(path, outcome);
        assert(before.hooks.open_answer(path, a));
        r
    }

    fn dispatch_save(&mut self, tokens: &Vec<String>) -> (r: String)
        requires
            tokens@.len() >= 1,
            old(self).log.wf(),
        ensures
            final(self).log.wf(),
            final(self).save_outcome(*old(self), string_views(tokens@).drop_first(), r@),
    {
        if self.model.is_none() {
            return String::from_str("error: no model to save");
        }
        let ghost args = string_views(tokens@).drop_first();
        let mut save_path = self.file_path.clone();
        let mut i: usize = 1;
        assert(args.take(0) =~= Seq::<Seq<char>>::empty());
        while i < tokens.len()
            invariant
                1 <= i <= tokens@.len(),
                args == string_views(tokens@).drop_first(),
                save_path@ == save_target(self.file_path@, args.take(i - 1)),
            decreases tokens@.len() - i,
        {
            let token = &tokens[i];
            assert(args.take(i as int).drop_last() =~= args.take(i - 1));
            assert(args.take(i as int).last() == token@);
            if is_key_value(token.as_str()) {
                let (key, value) = parse_key_value(token.as_str());
                if text_eq(key.as_str(), "as") {
                    save_path = value;
                }
            }
            i += 1;
        }
        assert(args.take(tokens@.len() - 1) =~= args);
        if save_path.as_str().is_empty() {
            return String::from_str("error: no file path. Use save as:./file");
        }
        let p = save_path.as_str();
        let outcome = match &self.model {
            Some(model) => self.hooks.on_save(model, p),
            None => {
                return String::from_str("error: no model to save");
            },
        };
        let ghost a = outcome;
        let ghost before = *self;
        assert(before.hooks.save_answer(&before.model->Some_0, p, a));
        self.finish_save(save_path, outcome)
    }

    fn dispatch_checkpoint(&mut self, tokens: &Vec<String>) -> (r: String)
        requires
            tokens@.len() >= 1,
            old(self).log.wf(),
        ensures
            final(self).log.wf(),
            final(self).checkpoint_outcome(*old(self), string_views(tokens@).drop_first(), r@),
    {
        if tokens.len() < 2 {
            return String::from_str("checkpoint requires a name");
        }
        let name = &tokens[1];
        self.log.checkpoint(name.as_str());
        concat3("checkpoint ", debug_quoted(name.as_str()).as_str(), " created")
    }

    fn dispatch_undo(&mut self, tokens: &Vec<String>) -> (r: String)
        requires
            tokens@.len() >= 1,
            old(self).log.wf(),
        ensures
            final(self).log.wf(),
            final(self).undo_outcome(*old(self), string_views(tokens@).drop_first(), r@),
    {
        if self.model.is_none() {
            return String::from_str("nothing to undo");
        }
        let ghost args = string_views(tokens@).drop_first();
        if tokens.len() >= 2 {
            let t = chars_of(tokens[1].as_str());
            assert(args[0] == t@);
            proof {
                reveal_strlit("to:");
            }
            if t.len() >= 4 && t[0] == 't' && t[1] == 'o' && t[2] == ':' {
                assert(t@.take(3) =~= "to:"@);
                let name = string_from_range(&t, 3, t.len());
                assert(name@ =~= t@.skip(3));
                if name.as_str().is_empty() {
                    return String::from_str("undo to: requires a checkpoint name");
                }
                match self.log.undo_to(name.as_str()) {
                    Ok(events) => {
                        let count = events.len();
                        match &mut self.model {
                            Some(model) => {
                                reverse_all(&self.hooks, &events, model);
                                self.hooks.on_rebuild_indices(model);
                            },
                            None => {},
                        }
                        let head = concat3("undone ", events_message(count).as_str(), " to checkpoint ");
                        return concat2(head.as_str(), debug_quoted(name.as_str()).as_str());
                    },
                    Err(_) => {
                        return concat2("cannot undo to ", debug_quoted(name.as_str()).as_str());
                    },
                }
            } else {
                assert(undo_to_name(args[0]) is None) by {
                    if t@.len() >= 4 && t@.take(3) == "to:"@ {
                        assert(t@.take(3)[0] == 't' && t@.take(3)[1] == 'o' && t@.take(3)[2] == ':');
                    }
                }
            }
        }
        let events = self.log.undo(1);
        if events.len() == 0 {
            return String::from_str("nothing to undo");
        }
        let count = events.len();
        match &mut self.model {
            Some(model) => {
                reverse_all(&self.hooks, &events, model);
                self.hooks.on_rebuild_indices(model);
            },
            None => {},
        }
        concat2("undone ", events_message(count).as_str())
    }

    fn dispatch_redo(&mut self) -> (r: String)
        requires
            old(self).log.wf(),
        ensures
            final(self).log.wf(),
            final(self).redo_outcome(*old(self), r@),
    {
        if self.model.is_none() {
            return String::from_str("nothing to redo");
        }
        let events = self.log.redo(1);
        if events.len() == 0 {
            return String::from_str("nothing to redo");
        }
        let count = events.len();
        match &mut self.model {
            Some(model) => {
                replay_all(&self.hooks, &events, model);
                self.hooks.on_rebuild_indices(model);
            },
            None => {},
        }
        concat2("redone ", events_message(count).as_str())
    }

    fn dispatch_status(&self) -> (r: String)
        ensures
            r@ == "status: placeholder"@,
    {
        String::from_str("status: placeholder")
    }

    fn dispatch_close(&mut self) -> (r: String)
        ensures
            *final(self) == *old(self),
            r@ == "close: placeholder"@,
    {
        String::from_str("close: placeholder")
    }
}

/// Reverses each event, in order, on the model.
fn reverse_all<H: SessionHooks>(hooks: &H, events: &Vec<H::Event>, model: &mut H::Model)
    ensures
        *final(model) == reversed_all(*hooks, events@, *old(model)),
{
    let ghost start = *model;
    let mut i: usize = 0;
    assert(events@.take(0) =~= Seq::<H::Event>::empty());
    while i < events.len()
        invariant
            i <= events@.len(),
            *model == reversed_all(*hooks, events@.take(i as int), start),
        decreases events@.len() - i,
    {
        hooks.reverse(&events[i], model);
        assert(events@.take(i + 1).drop_last() =~= events@.take(i as int));
        i += 1;
    }
    assert(events@.take(i as int) =~= events@);
}

/// Replays each event, in order, on the model.
fn replay_all<H: SessionHooks>(hooks: &H, events: &Vec<H::Event>, model: &mut H::Model)
    ensures
        *final(model) == replayed_all(*hooks, events@, *old(model)),
{
    let ghost start = *model;
    let mut i: usize = 0;
    assert(events@.take(0) =~= Seq::<H::Event>::empty());
    while i < events.len()
        invariant
            i <= events@.len(),
            *model == replayed_all(*hooks, events@.take(i as int), start),
        decreases events@.len() - i,
    {
        hooks.replay(&events[i], model);
        assert(events@.take(i + 1).drop_last() =~= events@.take(i as int));
        i += 1;
    }
    assert(events@.take(i as int) =~= events@);
}

/// `"s"` unless `n` is one.
fn plural(n: usize) -> (r: &'static str)
    ensures
        r@ == plural_text(n as nat),
{
    if n != 1 {
        "s"
    } else {
        ""
    }
}

/// `"N event"` or `"N events"`.
fn events_message(n: usize) -> (r: String)
    ensures
        r@ == events_text(n as nat),
{
    concat3(usize_text(n).as_str(), " event", plural(n))
}

/// The parameters that a `new` command hands to `on_new`.
fn build_new_params(tokens: &Vec<String>) -> (p: TextMap<String>)
    requires
        tokens@.len() >= 1,
    ensures
        text_values(p@) == new_params(string_views(tokens@).drop_first()),
{
    let ghost args = string_views(tokens@).drop_first();
    let mut params: TextMap<String> = TextMap::new();
    let mut positionals: Vec<String> = Vec::new();
    let mut i: usize = 1;
    assert(args.take(0) =~= Seq::<Seq<char>>::empty());
    assert(text_values(params@) =~= Map::<Seq<char>, Seq<char>>::empty());
    assert(string_views(positionals@) =~= Seq::<Seq<char>>::empty());
    while i < tokens.len()
        invariant
            1 <= i <= tokens@.len(),
            args == string_views(tokens@).drop_first(),
            (text_values(params@), string_views(positionals@)) == new_fields(args.take(i - 1)),
        decreases tokens@.len() - i,
    {
        let token = &tokens[i];
        assert(args.take(i as int).drop_last() =~= args.take(i - 1));
        assert(args.take(i as int).last() == token@);
        let ghost pv = params@;
        let ghost posv = string_views(positionals@);
        if is_key_value(token.as_str()) {
            let (key, value) = parse_key_value(token.as_str());
            params.insert(key, value);
            assert(text_values(params@) =~= text_values(pv).insert(key_of(token@), strip_quotes_text(raw_value_of(token@))));
        } else {
            positionals.push(token.clone());
            assert(string_views(positionals@) =~= posv.push(token@));
        }
        i += 1;
    }
    assert(args.take(tokens@.len() - 1) =~= args);
    if positionals.len() > 0 {
        let ghost pv = params@;
        params.insert(String::from_str("title"), positionals[0].clone());
        assert(text_values(params@) =~= text_values(pv).insert("title"@, positionals@[0]@));
    }
    params
}

} // verus!
