//! The command line, and the work done for each line of input.

use crate::descend::{descend, recurse};
use crate::json::{parse_value, parsed, Tree};
use crate::output::{format_result, line_text, output, result_tree, unquoted, Flags};
use crate::segment::{build_path, path_view, steps_of_tokens, texts, Segment, Step};
use serde_json::Value;
use vstd::prelude::*;
use vstd::string::*;

verus! {

/// What a run works with: the display modes and the path, both fixed once
/// the command line has been read.
#[derive(Debug)]
pub struct Config {
    pub flags: Flags,
    pub path: Vec<Segment>,
}

/// What the command line asks for.
#[derive(Debug)]
pub enum Command {
    /// Print the usage text and read no input.
    Help,
    /// Process the input with this configuration.
    Run(Config),
}

/// Whether an argument asks for the usage text.
pub open spec fn is_help(t: Seq<char>) -> bool {
    t == "-h"@ || t == "--help"@
}

/// Whether an argument sets `count`.
pub open spec fn is_count(t: Seq<char>) -> bool {
    t == "-c"@ || t == "--count"@
}

/// Whether an argument sets `print_keys`.
pub open spec fn is_keys(t: Seq<char>) -> bool {
    t == "-k"@ || t == "--keys"@
}

/// Whether an argument sets `keep_invalid`. Its short form is `-i`; `-k`
/// belongs to `print_keys` alone.
pub open spec fn is_keep_invalid(t: Seq<char>) -> bool {
    t == "-i"@ || t == "--keep-invalid"@
}

/// Whether an argument sets `remove_quotes`.
pub open spec fn is_remove_quotes(t: Seq<char>) -> bool {
    t == "-q"@ || t == "--remove-quotes"@
}

/// Whether an argument is one of the flags. Every other argument is a token
/// of the path.
pub open spec fn is_flag(t: Seq<char>) -> bool {
    is_help(t) || is_count(t) || is_keys(t) || is_keep_invalid(t) || is_remove_quotes(t)
}

/// Whether some argument asks for the usage text.
pub open spec fn wants_help(args: Seq<Seq<char>>) -> bool {
    exists|i: int| 0 <= i < args.len() && is_help(#[trigger] args[i])
}

/// The display modes that the arguments set: each is set by its flag,
/// wherever among the arguments the flag stands.
pub open spec fn flags_of(args: Seq<Seq<char>>) -> Flags {
    Flags {
        count: exists|i: int| 0 <= i < args.len() && is_count(#[trigger] args[i]),
        print_keys: exists|i: int| 0 <= i < args.len() && is_keys(#[trigger] args[i]),
        keep_invalid: exists|i: int| 0 <= i < args.len() && is_keep_invalid(#[trigger] args[i]),
        remove_quotes: exists|i: int|
            0 <= i < args.len() && is_remove_quotes(#[trigger] args[i]),
    }
}

/// The arguments that are no flags, in the order in which they stand.
pub open spec fn path_tokens(args: Seq<Seq<char>>) -> Seq<Seq<char>>
    decreases args.len(),
{
    if args.len() == 0 {
        Seq::empty()
    } else if is_flag(args.last()) {
        path_tokens(args.drop_last())
    } else {
        path_tokens(args.drop_last()).push(args.last())
    }
}

/// What one more argument adds to what the arguments before it gave.
proof fn lemma_scan_step(before: Seq<Seq<char>>, t: Seq<char>)
    ensures
        wants_help(before.push(t)) == (wants_help(before) || is_help(t)),
        flags_of(before.push(t)).count == (flags_of(before).count || is_count(t)),
        flags_of(before.push(t)).print_keys == (flags_of(before).print_keys || is_keys(t)),
        flags_of(before.push(t)).keep_invalid == (flags_of(before).keep_invalid
            || is_keep_invalid(t)),
        flags_of(before.push(t)).remove_quotes == (flags_of(before).remove_quotes
            || is_remove_quotes(t)),
        path_tokens(before.push(t)) == if is_flag(t) {
            path_tokens(before)
        } else {
            path_tokens(before).push(t)
        },
{
    let after = before.push(t);
    let n = before.len() as int;
    assert(after.drop_last() =~= before);
    assert(after.last() == t);
    assert(after[n] == t);
    assert forall|j: int| 0 <= j < n implies #[trigger] after[j] == before[j] by {}
    if wants_help(before) {
        let j = choose|j: int| 0 <= j < before.len() && is_help(#[trigger] before[j]);
        assert(is_help(after[j]));
    }
    if flags_of(before).count {
        let j = choose|j: int| 0 <= j < before.len() && is_count(#[trigger] before[j]);
        assert(is_count(after[j]));
    }
    if flags_of(before).print_keys {
        let j = choose|j: int| 0 <= j < before.len() && is_keys(#[trigger] before[j]);
        assert(is_keys(after[j]));
    }
    if flags_of(before).keep_invalid {
        let j = choose|j: int| 0 <= j < before.len() && is_keep_invalid(#[trigger] before[j]);
        assert(is_keep_invalid(after[j]));
    }
    if flags_of(before).remove_quotes {
        let j = choose|j: int| 0 <= j < before.len() && is_remove_quotes(#[trigger] before[j]);
        assert(is_remove_quotes(after[j]));
    }
}

/// The flags are ten different words: an argument is at most one of them.
proof fn lemma_flags_differ(t: Seq<char>)
    ensures
        is_help(t) ==> !is_count(t) && !is_keys(t) && !is_keep_invalid(t) && !is_remove_quotes(t),
        is_count(t) ==> !is_keys(t) && !is_keep_invalid(t) && !is_remove_quotes(t),
        is_keys(t) ==> !is_keep_invalid(t) && !is_remove_quotes(t),
        is_keep_invalid(t) ==> !is_remove_quotes(t),
{
    reveal_strlit("-h");
    reveal_strlit("--help");
    reveal_strlit("-c");
    reveal_strlit("--count");
    reveal_strlit("-k");
    reveal_strlit("--keys");
    reveal_strlit("-i");
    reveal_strlit("--keep-invalid");
    reveal_strlit("-q");
    reveal_strlit("--remove-quotes");
    assert("-h"@[1] == 'h');
    assert("--help"@[2] == 'h');
    assert("-c"@[1] == 'c');
    assert("--count"@[2] == 'c');
    assert("-k"@[1] == 'k');
    assert("--keys"@[3] == 'e');
    assert("--keep-invalid"@[3] == 'e');
    assert("--keys"@.len() == 6);
    assert("--keep-invalid"@.len() == 14);
    assert("-i"@[1] == 'i');
    assert("-q"@[1] == 'q');
    assert("--remove-quotes"@[2] == 'r');
}

/// Whether two texts are the same, character by character.
pub fn text_is(a: &str, b: &str) -> (same: bool)
    ensures
        same == (a@ == b@),
{
    let n: usize = a.unicode_len();
    if n != b.unicode_len() {
        return false;
    }
    let mut i: usize = 0;
    while i < n
        invariant
            n == a@.len(),
            n == b@.len(),
            0 <= i <= n,
            forall|j: int| 0 <= j < i ==> a@[j] == b@[j],
        decreases n - i,
    {
        if a.get_char(i) != b.get_char(i) {
            return false;
        }
        i = i + 1;
    }
    proof {
        assert(a@ =~= b@);
    }
    true
}

/// Reads the arguments that follow the program's name. A help flag anywhere
/// among them asks for the usage text; otherwise the flags set the display
/// modes and every other argument becomes one segment of the path, in order.
pub fn scan_args(args: &Vec<String>) -> (command: Command)
    ensures
        match command {
            Command::Help => wants_help(texts(args@)),
            Command::Run(config) => {
                &&& !wants_help(texts(args@))
                &&& config.flags == flags_of(texts(args@))
                &&& path_view(config.path@) == steps_of_tokens(path_tokens(texts(args@)))
            },
        },
{
    let ghost all = texts(args@);
    let mut help: bool = false;
    let mut flags = Flags {
        count: false,
        print_keys: false,
        keep_invalid: false,
        remove_quotes: false,
    };
    let mut tokens: Vec<String> = Vec::new();
    let n: usize = args.len();
    let mut i: usize = 0;
    proof {
        assert(all.take(0).len() == 0);
        assert(texts(tokens@) =~= path_tokens(all.take(0)));
    }
    while i < n
        invariant
            n == args@.len(),
            all == texts(args@),
            0 <= i <= n,
            help == wants_help(all.take(i as int)),
            flags == flags_of(all.take(i as int)),
            texts(tokens@) == path_tokens(all.take(i as int)),
        decreases n - i,
    {
        let token: String = args[i].clone();
        let ghost found = texts(tokens@);
        proof {
            assert(token@ == all[i as int]);
            assert(all.take(i + 1) =~= all.take(i as int).push(token@));
            lemma_scan_step(all.take(i as int), token@);
            lemma_flags_differ(token@);
        }
        let word: &str = token.as_str();
        if text_is(word, "-h") || text_is(word, "--help") {
            help = true;
        } else if text_is(word, "-c") || text_is(word, "--count") {
            flags.count = true;
        } else if text_is(word, "-k") || text_is(word, "--keys") {
            flags.print_keys = true;
        } else if text_is(word, "-i") || text_is(word, "--keep-invalid") {
            flags.keep_invalid = true;
        } else if text_is(word, "-q") || text_is(word, "--remove-quotes") {
            flags.remove_quotes = true;
        } else {
            tokens.push(token);
            proof {
                assert(texts(tokens@) =~= found.push(token@));
            }
        }
        i = i + 1;
    }
    proof {
        assert(all.take(n as int) =~= all);
    }
    if help {
        Command::Help
    } else {
        Command::Run(Config { flags, path: build_path(tokens) })
    }
}

/// Where the work on a line leads: into the document along the path, or
/// nowhere where the line held no document.
pub open spec fn selected(document: Option<Tree>, path: Seq<Step>) -> Option<Tree> {
    match document {
        Some(t) => descend(t, path),
        None => None,
    }
}

/// What is printed for a line of input: `None` for no line at all,
/// otherwise the text of the one line.
pub open spec fn line_output(text: Seq<char>, path: Seq<Step>, flags: Flags) -> Option<Seq<char>> {
    output(selected(parsed(text), path), flags)
}

/// Does the work that follows parsing: follows the path into the document,
/// where the line held one, and decides what to print.
pub fn process_document(document: Option<Value>, config: &Config) -> (line: Option<String>)
    ensures
        line_text(line) == output(
            selected(result_tree(document), path_view(config.path@)),
            config.flags,
        ),
        unquoted(
            selected(result_tree(document), path_view(config.path@)),
            config.flags,
            line_text(line),
        ),
{
    let found: Option<Value> = match document {
        Some(value) => recurse(value, config.path.as_slice()),
        None => None,
    };
    format_result(found, &config.flags)
}

/// Does the whole work on one line of input: parses it, follows the path
/// and decides what to print. A line that is no JSON document is treated as
/// a path that leads nowhere.
pub fn process_line(text: &str, config: &Config) -> (line: Option<String>)
    ensures
        line_text(line) == line_output(text@, path_view(config.path@), config.flags),
        unquoted(
            selected(parsed(text@), path_view(config.path@)),
            config.flags,
            line_text(line),
        ),
{
    process_document(parse_value(text), config)
}

/// A line that is no JSON document, and a line whose document the path
/// does not lead into, are printed alike: one blank line with
/// `keep_invalid`, no line without it.
pub proof fn law_invalid_line(text: Seq<char>, path: Seq<Step>, flags: Flags)
    ensures
        parsed(text) is None ==> selected(parsed(text), path) is None,
        selected(parsed(text), path) is None && flags.keep_invalid ==> line_output(
            text,
            path,
            flags,
        ) == Some(Seq::<char>::empty()),
        selected(parsed(text), path) is None && !flags.keep_invalid ==> line_output(
            text,
            path,
            flags,
        ) is None,
{
}

} // verus!
