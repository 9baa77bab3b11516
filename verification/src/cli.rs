//! What the command lines mean.
use crate::archive;
use crate::store::instances;
use crate::store::rows::{InstanceView, LibreNmsInstance};
use crate::store::table;
use crate::store::Store;
use crate::text;
use vstd::prelude::*;

verus! {

/// The version of the program.
pub const VERSION: &'static str = "0.6.3";

/// What the main program is asked to do.
#[derive(Debug, Clone, Copy, PartialEq, Eq, Structural)]
pub enum Command {
    Status,
    Serve,
    Version,
    Help,
    Unknown,
}

/// What a word asks for.
pub open spec fn command_of(word: Seq<char>) -> Command {
    if word == ""@ || word == "status"@ {
        Command::Status
    } else if word == "serve"@ {
        Command::Serve
    } else if word == "version"@ || word == "--version"@ || word == "-V"@ {
        Command::Version
    } else if word == "help"@ || word == "--help"@ || word == "-h"@ {
        Command::Help
    } else {
        Command::Unknown
    }
}

/// What a word asks for; no word asks for the status.
pub fn command(word: &str) -> (r: Command)
    ensures
        r == command_of(word@),
{
    if text::same(word, "") || text::same(word, "status") {
        Command::Status
    } else if text::same(word, "serve") {
        Command::Serve
    } else if text::same(word, "version") || text::same(word, "--version") || text::same(
        word,
        "-V",
    ) {
        Command::Version
    } else if text::same(word, "help") || text::same(word, "--help") || text::same(word, "-h") {
        Command::Help
    } else {
        Command::Unknown
    }
}

/// The first word that is not `--force`.
pub open spec fn first_unknown(words: Seq<Seq<char>>) -> Option<Seq<char>>
    decreases words.len(),
{
    if words.len() == 0 {
        None
    } else if words[0] != "--force"@ {
        Some(words[0])
    } else {
        first_unknown(words.drop_first())
    }
}

/// Whether a billing run is forced; the only word it takes is `--force`, and any other is handed
/// back.
pub fn force_flag(args: &Vec<String>) -> (r: core::result::Result<bool, String>)
    ensures
        match r {
            Ok(force) => first_unknown(archive::strings(args@)) is None && force == (args@.len()
                > 0),
            Err(word) => first_unknown(archive::strings(args@)) == Some(word@),
        },
{
    let ghost words = archive::strings(args@);
    let mut i: usize = 0;
    assert(words.skip(0) =~= words);
    while i < args.len()
        invariant
            i <= args@.len(),
            words == archive::strings(args@),
            first_unknown(words) == first_unknown(words.skip(i as int)),
        decreases args@.len() - i,
    {
        assert(words.skip(i as int)[0] == args@[i as int]@);
        assert(words.skip(i as int).drop_first() =~= words.skip(i + 1));
        if !text::same(&args[i], "--force") {
            return Err(args[i].clone());
        }
        i = i + 1;
    }
    Ok(args.len() > 0)
}

/// The word behind the first `--db`.
pub open spec fn database_word(words: Seq<Seq<char>>) -> Option<Seq<char>>
    decreases words.len(),
{
    if words.len() == 0 {
        None
    } else if words[0] == "--db"@ {
        if words.len() > 1 {
            Some(words[1])
        } else {
            None
        }
    } else {
        database_word(words.drop_first())
    }
}

/// The database that a template audit is told to write to, where it is.
pub fn database_flag(args: &Vec<String>) -> (r: Option<String>)
    ensures
        text::optional(r) == database_word(archive::strings(args@)),
{
    let ghost words = archive::strings(args@);
    let mut i: usize = 0;
    assert(words.skip(0) =~= words);
    while i < args.len()
        invariant
            i <= args@.len(),
            words == archive::strings(args@),
            database_word(words) == database_word(words.skip(i as int)),
        decreases args@.len() - i,
    {
        assert(words.skip(i as int)[0] == args@[i as int]@);
        if text::same(&args[i], "--db") {
            if args.len() - i > 1 {
                assert(words.skip(i as int)[1] == args@[i + 1]@);
                return Some(args[i + 1].clone());
            }
            return None;
        }
        assert(words.skip(i as int).drop_first() =~= words.skip(i + 1));
        i = i + 1;
    }
    None
}

/// A token as it was typed, without the white space around it; nothing where nothing was typed.
pub fn typed_token(line: &str) -> (r: Option<String>)
    ensures
        text::optional(r) == (if text::trimmed(line@).len() == 0 {
            None
        } else {
            Some(text::trimmed(line@))
        }),
{
    let t = text::trim(&text::chars_of(line));
    if t.len() == 0 {
        None
    } else {
        Some(text::string_of(&t))
    }
}

/// A server that is in use and has this name.
pub open spec fn in_use_called(name: Seq<char>) -> spec_fn(InstanceView) -> bool {
    |v: InstanceView| v.is_active && v.name == name
}

/// The server that a token is set for.
pub fn token_target(store: &Store, name: &str) -> (r: Option<LibreNmsInstance>)
    ensures
        table::found(r, store@.instances, in_use_called(name@)),
{
    let f = |t: &LibreNmsInstance| -> (b: bool)
        ensures
            b == in_use_called(name@)(t@),
    {
        t.is_active && text::same(&t.name, name)
    };
    table::at(
        &store.instances,
        table::position(&store.instances, f, Ghost(in_use_called(name@))),
        Ghost(in_use_called(name@)),
    )
}

// ---------------------------------------------------------------------------
// Laws
// ---------------------------------------------------------------------------

/// Which words ask for what; a word that is none of these is unknown.
pub proof fn law_command_words(word: Seq<char>)
    ensures
        command_of(word) == Command::Status <==> word.len() == 0 || word == "status"@,
        command_of(word) == Command::Serve <==> word == "serve"@,
        command_of(word) == Command::Version <==> word == "version"@ || word == "--version"@ || word
            == "-V"@,
        command_of(word) == Command::Help <==> word == "help"@ || word == "--help"@ || word == "-h"@,
{
    reveal_strlit("");
    reveal_strlit("status");
    reveal_strlit("serve");
    reveal_strlit("version");
    reveal_strlit("--version");
    reveal_strlit("-V");
    reveal_strlit("help");
    reveal_strlit("--help");
    reveal_strlit("-h");
    assert(word.len() == 0 ==> word =~= ""@);
    assert("status"@[1] == 't' && "serve"@[1] == 'e' && "version"@[0] == 'v' && "--version"@[2]
        == 'v' && "-V"@[1] == 'V' && "help"@[0] == 'h' && "--help"@[2] == 'h' && "-h"@[1] == 'h'
        && "status"@[0] == 's' && "serve"@[0] == 's');
    assert("--version"@[0] == '-' && "-V"@[0] == '-' && "--help"@[0] == '-' && "-h"@[0] == '-');
    assert("status"@.len() == 6 && "--help"@.len() == 6 && "-V"@.len() == 2 && "-h"@.len() == 2);
}

/// A word is handed back exactly where one is not `--force`, and it is the first such word.
pub proof fn law_first_unknown(words: Seq<Seq<char>>, i: int)
    ensures
        first_unknown(words) is None <==> forall|k: int|
            0 <= k < words.len() ==> #[trigger] words[k] == "--force"@,
        0 <= i < words.len() && words[i] != "--force"@ && (forall|k: int|
            0 <= k < i ==> #[trigger] words[k] == "--force"@) ==> first_unknown(words) == Some(
            words[i],
        ),
    decreases words.len(),
{
    if words.len() > 0 {
        let rest = words.drop_first();
        law_first_unknown(rest, i - 1);
        assert forall|k: int| 0 <= k < rest.len() implies #[trigger] rest[k] == words[k + 1] by {
        }
        if words[0] == "--force"@ {
            if first_unknown(rest) is None {
                assert forall|k: int| 0 <= k < words.len() implies #[trigger] words[k]
                    == "--force"@ by {
                    if k > 0 {
                        assert(rest[k - 1] == words[k]);
                    }
                }
            } else {
                let k = choose|k: int| 0 <= k < rest.len() && #[trigger] rest[k] != "--force"@;
                assert(words[k + 1] != "--force"@);
            }
        }
    }
}

/// The database is the word behind the first `--db`; without one, or with nothing behind it, none is
/// named.
pub proof fn law_database_word(before: Seq<Seq<char>>, word: Seq<char>, behind: Seq<Seq<char>>)
    requires
        forall|k: int| 0 <= k < before.len() ==> #[trigger] before[k] != "--db"@,
    ensures
        database_word(before + seq!["--db"@, word] + behind) == Some(word),
        database_word(before) is None,
        database_word(before + seq!["--db"@]) is None,
    decreases before.len(),
{
    let a = before + seq!["--db"@, word] + behind;
    let b = before + seq!["--db"@];
    if before.len() == 0 {
        assert(a[0] == "--db"@ && a[1] == word);
        assert(b[0] == "--db"@ && b.len() == 1);
    } else {
        assert(a[0] == before[0] && b[0] == before[0]);
        let rest = before.drop_first();
        assert forall|k: int| 0 <= k < rest.len() implies #[trigger] rest[k] != "--db"@ by {
            assert(rest[k] == before[k + 1]);
        }
        law_database_word(rest, word, behind);
        assert(a.drop_first() =~= rest + seq!["--db"@, word] + behind);
        assert(b.drop_first() =~= rest + seq!["--db"@]);
    }
}

/// A token is set for the server of that name that is in use, and for none where there is none.
pub proof fn law_token_target(r: Option<LibreNmsInstance>, rows: Seq<InstanceView>, name: Seq<char>)
    requires
        table::found(r, rows, in_use_called(name)),
    ensures
        r matches Some(t) ==> rows.contains(t@) && t@.is_active && t@.name == name,
        r is None ==> forall|i: int|
            0 <= i < rows.len() && (#[trigger] rows[i]).name == name ==> !rows[i].is_active,
{
    table::lemma_find_row(rows, in_use_called(name));
    if r is None {
        assert forall|i: int| 0 <= i < rows.len() && (#[trigger] rows[i]).name == name implies
        !rows[i].is_active by {
            assert(!in_use_called(name)(rows[i]));
        }
    }
}

} // verus!
