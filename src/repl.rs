//! The console's decisions: what each command line does to the store and
//! what it prints. Reading lines and script files is the caller's part.
use vstd::prelude::*;

use crate::dispatch::{infer_and_update, instruction_outcome, print_inference_result, report_text};
use crate::evaluation::query_text;
use crate::experience::{find_id, listing, without_id, ExperienceBase, ExperienceElement};
use crate::grammar::{
    parse_error_text, query_from_tokens, statement_from_tokens, str_equal, Query, Statement,
};
use crate::inference::inference_error_text;
use crate::instruction::{instruction_error_text, instruction_from, InferenceInstruction};
use crate::notation::parse_truth;
use crate::text::{parse_index, parse_usize, split_tokens, string_views, tokens};
use crate::truth::TruthValue;

verus! {

/// A console command with its arguments.
#[derive(Debug, PartialEq, Eq)]
pub enum ReplInstruction {
    Help(),
    Exit(),
    Assert(Vec<String>),
    Remove(usize),
    List(),
    Query(Vec<String>),
    Infer(Vec<String>),
    InferUpdate(Vec<String>),
    Clear(),
    File(String),
    Unknown(),
}

/// The id after `/remove` is not a number.
#[derive(Clone, Copy, Debug, PartialEq, Eq, Structural)]
pub enum ReplInstructionError {
    InvalidId,
}

impl ReplInstructionError {
    pub fn message(&self) -> (r: &'static str)
        ensures
            r@ == "Invalid id: Expected a number"@,
    {
        "Invalid id: Expected a number"
    }
}

/// `w` is a command's long or short form.
pub open spec fn is_command(w: Seq<char>, long: Seq<char>, short: Seq<char>) -> bool {
    w == long || w == short
}

/// The commands that a first word can name.
pub enum Command {
    Help,
    Exit,
    List,
    Clear,
    Assert,
    Remove,
    Query,
    Infer,
    InferUpdate,
    File,
    Other,
}

/// The command that a word names: its long form or its short one.
pub open spec fn command_of(w: Seq<char>) -> Command {
    if is_command(w, "/help"@, "/h"@) {
        Command::Help
    } else if is_command(w, "/exit"@, "/e"@) {
        Command::Exit
    } else if is_command(w, "/list"@, "/l"@) {
        Command::List
    } else if is_command(w, "/clear"@, "/c"@) {
        Command::Clear
    } else if is_command(w, "/assert"@, "/a"@) {
        Command::Assert
    } else if is_command(w, "/remove"@, "/r"@) {
        Command::Remove
    } else if is_command(w, "/query"@, "/q"@) {
        Command::Query
    } else if is_command(w, "/infer"@, "/i"@) {
        Command::Infer
    } else if is_command(w, "/infer+"@, "/i+"@) {
        Command::InferUpdate
    } else if is_command(w, "/file"@, "/f"@) {
        Command::File
    } else {
        Command::Other
    }
}

/// The words after the command word.
pub open spec fn arguments(t: Seq<Seq<char>>) -> Seq<Seq<char>> {
    if t.len() == 0 {
        t
    } else {
        t.skip(1)
    }
}

fn rest(words: &[String]) -> (r: Vec<String>)
    ensures
        string_views(r@) == arguments(string_views(words@)),
{
    let mut out: Vec<String> = Vec::new();
    if words.len() == 0 {
        assert(string_views(out@) =~= arguments(string_views(words@)));
        return out;
    }
    let mut i: usize = 1;
    assert(string_views(out@) =~= string_views(words@).subrange(1, 1));
    while i < words.len()
        invariant
            1 <= i <= words@.len(),
            string_views(out@) == string_views(words@).subrange(1, i as int),
        decreases words@.len() - i,
    {
        let ghost before = out@;
        let w = words[i].clone();
        out.push(w);
        assert(out@ == before.push(words@[i as int]));
        assert(string_views(out@) =~= string_views(before).push(words@[i as int]@));
        assert(string_views(out@) =~= string_views(words@).subrange(1, i as int + 1));
        i = i + 1;
    }
    assert(string_views(out@) =~= arguments(string_views(words@)));
    out
}

impl ReplInstruction {
    /// Reads a command from the words of a line.
    pub fn new(instructions: &[String]) -> (r: Result<ReplInstruction, ReplInstructionError>)
        ensures
            ({
                let t = string_views(instructions@);
                let c = command_of(t[0]);
                &&& t.len() == 0 ==> r == Ok::<ReplInstruction, ReplInstructionError>(
                    ReplInstruction::Unknown(),
                )
                &&& t.len() > 0 && c == Command::Help ==> r == Ok::<
                    ReplInstruction,
                    ReplInstructionError,
                >(ReplInstruction::Help())
                &&& t.len() > 0 && c == Command::Exit ==> r == Ok::<
                    ReplInstruction,
                    ReplInstructionError,
                >(ReplInstruction::Exit())
                &&& t.len() > 0 && c == Command::List ==> r == Ok::<
                    ReplInstruction,
                    ReplInstructionError,
                >(ReplInstruction::List())
                &&& t.len() > 0 && c == Command::Clear ==> r == Ok::<
                    ReplInstruction,
                    ReplInstructionError,
                >(ReplInstruction::Clear())
                &&& t.len() > 0 && c == Command::Assert ==> (r matches Ok(
                    ReplInstruction::Assert(v),
                ) && string_views(v@) == arguments(t))
                &&& t.len() > 0 && c == Command::Query ==> (r matches Ok(ReplInstruction::Query(v))
                    && string_views(v@) == arguments(t))
                &&& t.len() > 0 && c == Command::Infer ==> (r matches Ok(ReplInstruction::Infer(v))
                    && string_views(v@) == arguments(t))
                &&& t.len() > 0 && c == Command::InferUpdate ==> (r matches Ok(
                    ReplInstruction::InferUpdate(v),
                ) && string_views(v@) == arguments(t))
                &&& t.len() > 0 && c == Command::Remove ==> if t.len() >= 2 && parse_index(
                    t[1],
                ) is Some {
                    r == Ok::<ReplInstruction, ReplInstructionError>(
                        ReplInstruction::Remove(parse_index(t[1])->Some_0),
                    )
                } else {
                    r == Err::<ReplInstruction, ReplInstructionError>(
                        ReplInstructionError::InvalidId,
                    )
                }
                &&& t.len() > 0 && c == Command::File ==> (r matches Ok(ReplInstruction::File(p))
                    && p@ == (if t.len() >= 2 {
                    t[1]
                } else {
                    Seq::empty()
                }))
                &&& t.len() > 0 && c == Command::Other ==> r == Ok::<
                    ReplInstruction,
                    ReplInstructionError,
                >(ReplInstruction::Unknown())
            }),
    {
        if instructions.len() == 0 {
            return Ok(ReplInstruction::Unknown());
        }
        assert(string_views(instructions@)[0] == instructions@[0]@);
        let w = instructions[0].as_str();
        if str_equal(w, "/help") || str_equal(w, "/h") {
            Ok(ReplInstruction::Help())
        } else if str_equal(w, "/exit") || str_equal(w, "/e") {
            Ok(ReplInstruction::Exit())
        } else if str_equal(w, "/list") || str_equal(w, "/l") {
            Ok(ReplInstruction::List())
        } else if str_equal(w, "/clear") || str_equal(w, "/c") {
            Ok(ReplInstruction::Clear())
        } else if str_equal(w, "/assert") || str_equal(w, "/a") {
            Ok(ReplInstruction::Assert(rest(instructions)))
        } else if str_equal(w, "/remove") || str_equal(w, "/r") {
            if instructions.len() < 2 {
                return Err(ReplInstructionError::InvalidId);
            }
            assert(string_views(instructions@)[1] == instructions@[1]@);
            match parse_usize(instructions[1].as_str()) {
                Some(id) => Ok(ReplInstruction::Remove(id)),
                None => Err(ReplInstructionError::InvalidId),
            }
        } else if str_equal(w, "/query") || str_equal(w, "/q") {
            Ok(ReplInstruction::Query(rest(instructions)))
        } else if str_equal(w, "/infer") || str_equal(w, "/i") {
            Ok(ReplInstruction::Infer(rest(instructions)))
        } else if str_equal(w, "/infer+") || str_equal(w, "/i+") {
            Ok(ReplInstruction::InferUpdate(rest(instructions)))
        } else if str_equal(w, "/file") || str_equal(w, "/f") {
            if instructions.len() < 2 {
                return Ok(ReplInstruction::File(String::new()));
            }
            assert(string_views(instructions@)[1] == instructions@[1]@);
            Ok(ReplInstruction::File(instructions[1].clone()))
        } else {
            Ok(ReplInstruction::Unknown())
        }
    }
}


/// The console's help text.
pub const HELP_MSG: &'static str = "This is the repl for the Non Axiomatic Logic Engine. The following commands are available:
    /help   | /h: print this help message
    /exit   | /e: exit the repl
    /file   | /f: load and execute a file
    /assert | /a: insert a statement into the experience base
    /remove | /r: remove a statement from the experience base
    /list   | /l: list all statements in the experience base
    /query  | /q: query the experience base
    /infer  | /i: infer a statement from the experience base
        revision                | rev | r  <id1> <id2>: infer a statement from the experience base using revision
        choice                  | cho | ch <id1> <id2>: infer a statement from the experience base using choice
        deduction               | ded | d  <id1> <id2>: infer a statement from the experience base using deduction
        induction               | ind | i  <id1> <id2>: infer a statement from the experience base using induction
        exemplification         | exe | e  <id1> <id2>: infer a statement from the experience base using exemplification
        abduction               | abd | a  <id1> <id2>: infer a statement from the experience base using abduction
        conversion              | cnv | c  <id>: infer a statement from the experience base using conversion
        comparison              | com      <id1> <id2>: infer a statement from the experience base using comparison
        analogy                 | ana      <id1> <id2>: infer a statement from the experience base using analogy
        resemblance             | res      <id1> <id2>: infer a statement from the experience base using resemblance
        union_extension         | ue       <id1> <id2>: infer a statement from the experience base using union_extension
        union_intension         | ui       <id1> <id2>: infer a statement from the experience base using union_intension
        intersection_extension  | ie       <id1> <id2>: infer a statement from the experience base using intersection_extension
        intersection_intension  | ii       <id1> <id2>: infer a statement from the experience base using intersection_intension
        difference_extension    | de       <id1> <id2>: infer a statement from the experience base using difference_extension
        difference_intension    | di       <id1> <id2>: infer a statement from the experience base using difference_intension
    /clear  | /c: clear the experience base\n";

/// What the console does after a line.
#[derive(Debug, PartialEq, Eq)]
pub enum Action {
    Print(String),
    Nothing(),
    Exit(),
    /// Run the commands of the script at this path, then print `Ok.`.
    Load(String),
}

/// Words joined by single spaces.
pub open spec fn joined(v: Seq<Seq<char>>) -> Seq<char>
    decreases v.len(),
{
    if v.len() == 0 {
        Seq::empty()
    } else if v.len() == 1 {
        v[0]
    } else {
        joined(v.drop_last()) + seq![' '] + v.last()
    }
}

fn join_from(v: &[String], from: usize) -> (r: String)
    requires
        from <= v@.len(),
    ensures
        r@ == joined(string_views(v@).skip(from as int)),
{
    let mut out = String::new();
    let mut i: usize = from;
    assert(string_views(v@).subrange(from as int, from as int) =~= Seq::<Seq<char>>::empty());
    while i < v.len()
        invariant
            from <= i <= v@.len(),
            out@ == joined(string_views(v@).subrange(from as int, i as int)),
        decreases v@.len() - i,
    {
        if i > from {
            out.append(" ");
        }
        out.append(v[i].as_str());
        proof {
            reveal_strlit(" ");
            let part = string_views(v@).subrange(from as int, i as int + 1);
            assert(part.drop_last() =~= string_views(v@).subrange(from as int, i as int));
            assert(part.last() == v@[i as int]@);
            assert(out@ =~= joined(part));
        }
        i = i + 1;
    }
    assert(string_views(v@).subrange(from as int, v@.len() as int) =~= string_views(v@).skip(
        from as int,
    ));
    out
}

/// The first three words, or all of them where there are fewer.
pub open spec fn statement_words(args: Seq<Seq<char>>) -> Seq<Seq<char>> {
    if args.len() >= 3 {
        args.take(3)
    } else {
        args
    }
}

/// The truth value written after an asserted statement, or `<1.00, 0.99>`
/// where there is none or it does not read as one.
pub open spec fn asserted_truth(args: Seq<Seq<char>>) -> TruthValue {
    if args.len() > 3 && parse_truth(joined(args.skip(3))) is Ok {
        parse_truth(joined(args.skip(3)))->Ok_0
    } else {
        TruthValue { freq: 1_000_000_000, conf: 990_000_000 }
    }
}

/// The console's state: a store, and how many prompts it has shown.
pub struct ReplConsole {
    counter: usize,
    experience_base: ExperienceBase,
}

impl ReplConsole {
    pub closed spec fn base(&self) -> ExperienceBase {
        self.experience_base
    }

    pub closed spec fn count(&self) -> nat {
        self.counter as nat
    }

    pub open spec fn wf(&self) -> bool {
        self.base().wf()
    }

    /// A console with an empty store.
    pub fn new() -> (r: ReplConsole)
        ensures
            r.wf(),
            r.base()@ == Seq::<ExperienceElement>::empty(),
            r.base().last_id() == 0,
            r.count() == 0,
    {
        ReplConsole { counter: 0, experience_base: ExperienceBase::new() }
    }

    /// How many prompts the console has shown.
    pub fn counter(&self) -> (r: usize)
        ensures
            r == self.count(),
    {
        self.counter
    }

    /// The console's store.
    pub fn experience_base(&self) -> (r: &ExperienceBase)
        ensures
            *r == self.base(),
    {
        &self.experience_base
    }

    /// Counts one more prompt and returns its text, `n>> `.
    pub fn prompt(&mut self) -> (r: String)
        requires
            old(self).wf(),
        ensures
            final(self).wf(),
            final(self).base() == old(self).base(),
            final(self).count() == (if old(self).count() < usize::MAX {
                old(self).count() + 1
            } else {
                old(self).count()
            }),
            r@ == crate::text::decimal_text(final(self).count()) + ">> "@,
    {
        if self.counter < usize::MAX {
            self.counter = self.counter + 1;
        }
        let mut out = String::new();
        crate::text::push_decimal(&mut out, self.counter);
        out.append(">> ");
        out
    }

    fn assert_words(&mut self, args: &Vec<String>, now: i64) -> (r: Result<Action, String>)
        requires
            old(self).wf(),
        ensures
            final(self).wf(),
            final(self).count() == old(self).count(),
            ({
                let a = string_views(args@);
                let parsed = statement_from_tokens(statement_words(a));
                let (b0, b1) = (old(self).base(), final(self).base());
                &&& parsed is Err ==> (r matches Err(m) && m@ == parse_error_text(parsed->Err_0))
                    && b1 == b0
                &&& parsed is Ok && b0.last_id() == usize::MAX ==> r is Err && b1 == b0
                &&& parsed is Ok && b0.last_id() < usize::MAX ==> (r matches Ok(Action::Print(m))
                    && m@ == "Ok."@ && b1@ == b0@.push(b1@.last()) && b1@.last().id
                    == b0.last_id() + 1 && b1@.last().stmt.parts() == parsed->Ok_0
                    && b1@.last().truth_value == asserted_truth(a) && b1@.last().created_at == now
                    && b1.last_id() == b0.last_id() + 1)
            }),
    {
        let stmt = if args.len() >= 3 {
            let first: Vec<String> = vec![args[0].clone(), args[1].clone(), args[2].clone()];
            assert(string_views(first@) =~= statement_words(string_views(args@)));
            Statement::from_vec(&first)
        } else {
            Statement::from_vec(args.as_slice())
        };
        let stmt = match stmt {
            Ok(s) => s,
            Err(e) => {
                return Err(String::from_str(e.message()));
            },
        };
        if self.experience_base.is_full() {
            return Err(String::from_str("Experience base is full."));
        }
        let next_id = self.experience_base.get_next_id();
        let truth_value = if args.len() > 3 {
            let text = join_from(args.as_slice(), 3);
            match TruthValue::new_from_str(text.as_str()) {
                Ok(t) => t,
                Err(_) => TruthValue { freq: 1_000_000_000, conf: 990_000_000 },
            }
        } else {
            TruthValue { freq: 1_000_000_000, conf: 990_000_000 }
        };
        self.experience_base.add(ExperienceElement::new_with_truth_value(stmt, next_id, truth_value, now));
        Ok(Action::Print(String::from_str("Ok.")))
    }
}


impl ReplConsole {
    /// Runs one command line against the store and says what to show; an
    /// element it adds is stamped with `now`, the caller's local wall-clock
    /// time in milliseconds.
    pub fn execute(&mut self, input: &str, now: i64) -> (r: Result<Action, String>)
        requires
            old(self).wf(),
        ensures
            final(self).wf(),
            final(self).count() == old(self).count(),
            ({
                let t = tokens(input@);
                let c = command_of(t[0]);
                let a = arguments(t);
                let (b0, b1) = (old(self).base(), final(self).base());
                &&& (t.len() == 0 || c == Command::Other) ==> (r matches Ok(Action::Print(m))
                    && m@ == "Unknown command."@) && b1 == b0
                &&& t.len() > 0 && c == Command::Help ==> (r matches Ok(Action::Print(m)) && m@
                    == HELP_MSG@) && b1 == b0
                &&& t.len() > 0 && c == Command::Exit ==> (r matches Ok(Action::Exit())) && b1
                    == b0
                &&& t.len() > 0 && c == Command::File ==> (r matches Ok(Action::Load(p)) && p@
                    == (if t.len() >= 2 {
                    t[1]
                } else {
                    Seq::empty()
                })) && b1 == b0
                &&& t.len() > 0 && c == Command::Clear ==> (r matches Ok(Action::Print(m)) && m@
                    == "Ok."@) && b1@ == Seq::<ExperienceElement>::empty() && b1.last_id()
                    == b0.last_id()
                &&& t.len() > 0 && c == Command::List ==> (r matches Ok(Action::Print(m)) && m@
                    == listing(b0@)) && b1 == b0
                &&& t.len() > 0 && c == Command::Remove ==> if t.len() >= 2 && parse_index(
                    t[1],
                ) is Some {
                    let id = parse_index(t[1])->Some_0;
                    if find_id(b0@, id) is None {
                        (r matches Err(m) && m@ == "Experience id not found."@) && b1@ == b0@
                    } else {
                        (r matches Ok(Action::Print(m)) && m@ == "Ok."@) && b1@ == without_id(
                            b0@,
                            id,
                        )
                    }
                } else {
                    (r matches Ok(Action::Print(m)) && m@ == "Invalid id: Expected a number"@)
                        && b1 == b0
                }
                &&& t.len() > 0 && c == Command::Assert ==> {
                    let parsed = statement_from_tokens(statement_words(a));
                    &&& parsed is Err ==> (r matches Err(m) && m@ == parse_error_text(
                        parsed->Err_0,
                    )) && b1 == b0
                    &&& parsed is Ok && b0.last_id() < usize::MAX ==> (r matches Ok(
                        Action::Print(m),
                    ) && m@ == "Ok."@ && b1@ == b0@.push(b1@.last()) && b1@.last().id
                        == b0.last_id() + 1 && b1@.last().stmt.parts() == parsed->Ok_0
                        && b1@.last().truth_value == asserted_truth(a) && b1@.last().created_at
                        == now)
                }
                &&& t.len() > 0 && c == Command::Query ==> b1 == b0 && if query_from_tokens(
                    a,
                ) is Err {
                    r matches Err(m) && m@ == parse_error_text(query_from_tokens(a)->Err_0)
                } else {
                    r matches Ok(Action::Print(m)) && exists|q: Query|
                        q.parts() == query_from_tokens(a)->Ok_0 && query_text(b0, q) == Ok::<
                            Seq<char>,
                            crate::evaluation::QueryError,
                        >(m@)
                }
                &&& t.len() > 0 && c == Command::Infer ==> b1 == b0 && match instruction_from(
                    a,
                ) {
                    Err(e) => r matches Err(m) && m@ == instruction_error_text(e),
                    Ok(i) => match instruction_outcome(b0@, i) {
                        Err(e) => r matches Err(m) && m@ == inference_error_text(e),
                        Ok((p, tv)) => r matches Ok(Action::Print(m)) && m@ == report_text(
                            b0@,
                            i,
                            p,
                            tv,
                        ),
                    },
                }
                &&& t.len() > 0 && c == Command::InferUpdate ==> match instruction_from(a) {
                    Err(e) => (r matches Err(m) && m@ == instruction_error_text(e)) && b1 == b0,
                    Ok(i) => match instruction_outcome(b0@, i) {
                        Err(e) => (r matches Err(m) && m@ == inference_error_text(e)) && b1@
                            == b0@,
                        Ok((p, tv)) => b0.last_id() < usize::MAX ==> (r matches Ok(
                            Action::Print(m),
                        ) && m@ == report_text(b0@, i, p, tv) && b1@ == b0@.push(b1@.last())
                            && b1@.last().id == b0.last_id() + 1 && b1@.last().stmt.parts() == p
                            && b1@.last().truth_value == tv && b1@.last().created_at == now),
                    },
                }
            }),
    {
        let words = split_tokens(input);
        match ReplInstruction::new(words.as_slice()) {
            Ok(ReplInstruction::Help()) => Ok(Action::Print(String::from_str(HELP_MSG))),
            Ok(ReplInstruction::Exit()) => Ok(Action::Exit()),
            Ok(ReplInstruction::Assert(args)) => self.assert_words(&args, now),
            Ok(ReplInstruction::Remove(id)) => match self.experience_base.remove(id) {
                Ok(()) => Ok(Action::Print(String::from_str("Ok."))),
                Err(e) => Err(String::from_str(e.message())),
            },
            Ok(ReplInstruction::List()) => Ok(Action::Print(self.experience_base.to_string())),
            Ok(ReplInstruction::Query(args)) => {
                let query = match Query::from_vec(args.as_slice()) {
                    Ok(q) => q,
                    Err(e) => {
                        return Err(String::from_str(e.message()));
                    },
                };
                match self.experience_base.query(query) {
                    Ok(text) => Ok(Action::Print(text)),
                    Err(e) => Err(String::from_str(e.message())),
                }
            },
            Ok(ReplInstruction::Infer(args)) => {
                let instruction = match InferenceInstruction::new(args.as_slice()) {
                    Ok(i) => i,
                    Err(e) => {
                        return Err(String::from_str(e.message()));
                    },
                };
                match print_inference_result(&self.experience_base, instruction) {
                    Ok(text) => Ok(Action::Print(text)),
                    Err(e) => Err(String::from_str(e.message())),
                }
            },
            Ok(ReplInstruction::InferUpdate(args)) => {
                let instruction = match InferenceInstruction::new(args.as_slice()) {
                    Ok(i) => i,
                    Err(e) => {
                        return Err(String::from_str(e.message()));
                    },
                };
                if self.experience_base.is_full() {
                    return match print_inference_result(&self.experience_base, instruction) {
                        Ok(_) => Err(String::from_str("Experience base is full.")),
                        Err(e) => Err(String::from_str(e.message())),
                    };
                }
                match infer_and_update(&mut self.experience_base, instruction, now) {
                    Ok(text) => Ok(Action::Print(text)),
                    Err(e) => Err(String::from_str(e.message())),
                }
            },
            Ok(ReplInstruction::Clear()) => {
                self.experience_base.clear();
                Ok(Action::Print(String::from_str("Ok.")))
            },
            Ok(ReplInstruction::File(path)) => Ok(Action::Load(path)),
            Ok(ReplInstruction::Unknown()) => Ok(Action::Print(String::from_str("Unknown command."))),
            Err(e) => Ok(Action::Print(String::from_str(e.message()))),
        }
    }
}

impl Default for ReplConsole {
    fn default() -> (r: ReplConsole)
        ensures
            r.wf(),
            r.base()@ == Seq::<ExperienceElement>::empty(),
            r.base().last_id() == 0,
            r.count() == 0,
    {
        ReplConsole::new()
    }
}

/// A script line that holds a command: neither empty nor a `#` comment.
pub fn is_script_command(line: &str) -> (r: bool)
    ensures
        r == (line@.len() > 0 && line@[0] != '#'),
{
    line.unicode_len() > 0 && line.get_char(0) != '#'
}

} // verus!
