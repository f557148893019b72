//! `sounding export-body`: the authored-content export.
//!
//! The same shape as its `check` sibling: the arguments are parsed here and the
//! transcript is decided here. A generated id encodes its seed, so a `--seed`
//! beside one has to agree with it; which seed an id encodes the simulation says.

use crate::check_cli::is_flag;
use crate::check_cli::looks_like_flag;
use crate::check_cli::Transcript;
use crate::text::decimal;
use crate::text::join2;
use crate::text::join3;
use crate::text::push_decimal;
use crate::text::read_u64;
use crate::text::same_text;
use crate::text::u64_of;
use vstd::prelude::*;

verus! {

/// Parsed arguments: `sounding export-body <id> [--seed N] [--freeze]
/// [--id NEW-ID] [--pack FILE ...] [--out FILE]`.
#[derive(Debug, PartialEq, Eq)]
pub struct ExportArgs {
    /// The body to export.
    pub target: String,
    /// The seed to resolve it with.
    pub seed: Option<u64>,
    /// Whether to freeze generated values into the record.
    pub freeze: bool,
    /// The id the exported record is given.
    pub new_id: Option<String>,
    /// Extra pack files composed after the embedded canonical pack.
    pub packs: Vec<String>,
    /// Where the pack is written; standard output when absent.
    pub out: Option<String>,
}

/// The one-line usage text.
pub const USAGE: &'static str =
    "usage: sounding export-body <id> [--seed N] [--freeze] [--id NEW-ID] [--pack FILE ...] [--out FILE]";

/// The arguments as sequences, the body id still optional.
#[verifier::ext_equal]
pub struct ExportSpec {
    pub target: Option<Seq<char>>,
    pub seed: Option<u64>,
    pub freeze: bool,
    pub new_id: Option<Seq<char>>,
    pub packs: Seq<Seq<char>>,
    pub out: Option<Seq<char>>,
}

impl View for ExportArgs {
    type V = ExportSpec;

    open spec fn view(&self) -> ExportSpec {
        ExportSpec {
            target: Some(self.target@),
            seed: self.seed,
            freeze: self.freeze,
            new_id: self.new_id.deep_view(),
            packs: self.packs.deep_view(),
            out: self.out.deep_view(),
        }
    }
}

impl Default for ExportArgs {
    fn default() -> (args: ExportArgs)
        ensures
            args.target@ == Seq::<char>::empty(),
            args@ == (ExportSpec { target: Some(Seq::empty()), ..no_args() }),
    {
        let args = ExportArgs {
            target: String::new(),
            seed: None,
            freeze: false,
            new_id: None,
            packs: Vec::new(),
            out: None,
        };
        assert(args@.packs =~= Seq::<Seq<char>>::empty());
        args
    }
}

/// Nothing asked for.
pub open spec fn no_args() -> ExportSpec {
    ExportSpec {
        target: None,
        seed: None,
        freeze: false,
        new_id: None,
        packs: Seq::empty(),
        out: None,
    }
}

/// The grammar: `so_far` extended by `args`, or the message of the first
/// argument that does not fit. A bad number is reported before a repeated flag.
pub open spec fn grammar(so_far: ExportSpec, args: Seq<Seq<char>>) -> Result<
    ExportSpec,
    Seq<char>,
>
    decreases args.len(),
{
    if args.len() == 0 {
        Ok(so_far)
    } else if args[0] == "--seed"@ {
        if args.len() == 1 {
            Err("--seed requires a value"@)
        } else if u64_of(args[1]) is None {
            Err("--seed requires a non-negative integer"@)
        } else if so_far.seed is Some {
            Err("--seed given twice"@)
        } else {
            grammar(ExportSpec { seed: u64_of(args[1]), ..so_far }, args.skip(2))
        }
    } else if args[0] == "--freeze"@ {
        grammar(ExportSpec { freeze: true, ..so_far }, args.skip(1))
    } else if args[0] == "--id"@ {
        if args.len() == 1 {
            Err("--id requires a record id"@)
        } else if so_far.new_id is Some {
            Err("--id given twice"@)
        } else {
            grammar(ExportSpec { new_id: Some(args[1]), ..so_far }, args.skip(2))
        }
    } else if args[0] == "--pack"@ {
        if args.len() == 1 {
            Err("--pack requires a file path"@)
        } else {
            grammar(ExportSpec { packs: so_far.packs.push(args[1]), ..so_far }, args.skip(2))
        }
    } else if args[0] == "--out"@ {
        if args.len() == 1 {
            Err("--out requires a file path"@)
        } else if so_far.out is Some {
            Err("--out given twice"@)
        } else {
            grammar(ExportSpec { out: Some(args[1]), ..so_far }, args.skip(2))
        }
    } else if is_flag(args[0]) {
        Err("unknown flag `"@ + args[0] + "`"@)
    } else if so_far.target is Some {
        Err("unexpected argument `"@ + args[0] + "`"@)
    } else {
        grammar(ExportSpec { target: Some(args[0]), ..so_far }, args.skip(1))
    }
}

/// The message for a `--seed` that disagrees with the id's own.
pub open spec fn contradiction(seed: u64, encoded: u64) -> Seq<char> {
    "--seed "@ + decimal(seed as nat) + " contradicts the id's encoded seed "@ + decimal(
        encoded as nat,
    ) + " — a generated id IS its seed"@
}

/// Whether a whole line is accepted: it fits the grammar, names a body, and its
/// seed, if both it and the id hold one, is the id's own.
pub open spec fn accepted(
    line: Result<ExportSpec, Seq<char>>,
    encoded: Option<u64>,
) -> Result<ExportSpec, Seq<char>> {
    match line {
        Err(e) => Err(e),
        Ok(c) => if c.target is None {
            Err("a body id is required"@)
        } else if c.seed is Some && encoded is Some && c.seed != encoded {
            Err(contradiction(c.seed->0, encoded->0))
        } else {
            Ok(c)
        },
    }
}

/// What the parser owes for a whole command line whose id encodes `encoded`.
pub open spec fn parse(args: Seq<Seq<char>>, encoded: Option<u64>) -> Result<
    ExportSpec,
    Seq<char>,
> {
    accepted(grammar(no_args(), args), encoded)
}

/// The text of a parse result: the arguments' view, or the message.
pub open spec fn outcome(r: Result<ExportArgs, String>) -> Result<ExportSpec, Seq<char>> {
    match r {
        Ok(args) => Ok(args@),
        Err(e) => Err(e@),
    }
}

/// Holds the parsed seed against the seed that the id encodes.
pub fn check_seed(parsed: ExportArgs, encoded: Option<u64>) -> (checked: Result<ExportArgs, String>)
    ensures
        outcome(checked) == accepted(Ok(parsed@), encoded),
{
    if let Some(seed) = parsed.seed {
        if let Some(own) = encoded {
            if seed != own {
                let mut e: String = "--seed ".to_owned();
                push_decimal(&mut e, seed);
                e.append(" contradicts the id's encoded seed ");
                push_decimal(&mut e, own);
                e.append(" — a generated id IS its seed");
                return Err(e);
            }
        }
    }
    Ok(parsed)
}

/// Parses the arguments after `export-body`, given the seed that the id among them
/// encodes, if it is a generated one. Without that seed the line is parsed all the
/// same, and [`check_seed`] can follow once the id is known.
#[verifier::rlimit(40)]
pub fn parse_args(args: &[String], encoded: Option<u64>) -> (checked: Result<ExportArgs, String>)
    ensures
        outcome(checked) == parse(args.deep_view(), encoded),
{
    let mut parsed = ExportArgs::default();
    let mut target: Option<String> = None;
    let ghost all = args.deep_view();
    let mut i: usize = 0;
    assert(all.skip(0) =~= all);
    assert(ExportSpec { target: target.deep_view(), ..parsed@ } =~= no_args());
    while i < args.len()
        invariant
            i <= args.len(),
            all == args.deep_view(),
            grammar(ExportSpec { target: target.deep_view(), ..parsed@ }, all.skip(i as int))
                == grammar(no_args(), all),
        decreases args.len() - i,
    {
        let arg: &str = args[i].as_str();
        let ghost rest = all.skip(i as int);
        let ghost before = ExportSpec { target: target.deep_view(), ..parsed@ };
        assert(rest.len() == args.len() - i);
        assert(rest[0] == arg@);
        assert(i + 1 < args.len() ==> rest[1] == all[i + 1]);
        assert(rest.skip(1) =~= all.skip(i + 1));
        assert(rest.len() > 1 ==> rest.skip(2) =~= all.skip(i + 2));
        if same_text(arg, "--seed") {
            if i + 1 >= args.len() {
                return Err("--seed requires a value".to_owned());
            }
            match read_u64(args[i + 1].as_str()) {
                None => {
                    return Err("--seed requires a non-negative integer".to_owned());
                },
                Some(n) => {
                    if parsed.seed.is_some() {
                        return Err("--seed given twice".to_owned());
                    }
                    parsed.seed = Some(n);
                },
            }
            i += 2;
        } else if same_text(arg, "--freeze") {
            parsed.freeze = true;
            i += 1;
        } else if same_text(arg, "--id") {
            if i + 1 >= args.len() {
                return Err("--id requires a record id".to_owned());
            }
            if parsed.new_id.is_some() {
                return Err("--id given twice".to_owned());
            }
            parsed.new_id = Some(args[i + 1].clone());
            i += 2;
        } else if same_text(arg, "--pack") {
            if i + 1 >= args.len() {
                return Err("--pack requires a file path".to_owned());
            }
            parsed.packs.push(args[i + 1].clone());
            assert(parsed@.packs =~= before.packs.push(rest[1]));
            i += 2;
        } else if same_text(arg, "--out") {
            if i + 1 >= args.len() {
                return Err("--out requires a file path".to_owned());
            }
            if parsed.out.is_some() {
                return Err("--out given twice".to_owned());
            }
            parsed.out = Some(args[i + 1].clone());
            i += 2;
        } else if looks_like_flag(arg) {
            return Err(join3("unknown flag `", arg, "`"));
        } else if target.is_some() {
            return Err(join3("unexpected argument `", arg, "`"));
        } else {
            target = Some(arg.to_owned());
            i += 1;
        }
    }
    assert(all.skip(args.len() as int) =~= Seq::<Seq<char>>::empty());
    match target {
        None => Err("a body id is required".to_owned()),
        Some(id) => {
            parsed.target = id;
            check_seed(parsed, encoded)
        },
    }
}

/// A line that is accepted names a body, and never holds a seed that its generated
/// id contradicts.
pub proof fn lemma_accepted_seed_is_the_ids_own(args: Seq<Seq<char>>, encoded: Option<u64>)
    ensures
        parse(args, encoded) matches Ok(c) ==> c.target is Some && (c.seed is Some && encoded
            is Some ==> c.seed == encoded),
{
}

/// Holding the seed against the id's own after the line is parsed is the same as
/// doing so at once.
pub proof fn lemma_seed_can_be_checked_later(args: Seq<Seq<char>>, encoded: Option<u64>)
    ensures
        accepted(parse(args, None), encoded) == parse(args, encoded),
{
}

/// Whether a message says that the line ends before a flag's value.
pub open spec fn ends_too_soon(e: Seq<char>) -> bool {
    ||| e == "--seed requires a value"@
    ||| e == "--id requires a record id"@
    ||| e == "--pack requires a file path"@
    ||| e == "--out requires a file path"@
}

/// A line that fits the grammar can go on: what follows is read on top of what it
/// said. So a line is refused for what it begins with, unless that only lacks a
/// value.
pub proof fn lemma_lines_join(so_far: ExportSpec, first: Seq<Seq<char>>, second: Seq<Seq<char>>)
    ensures
        grammar(so_far, first) matches Ok(c) ==> grammar(so_far, first + second) == grammar(
            c,
            second,
        ),
        grammar(so_far, first) matches Err(e) ==> ends_too_soon(e) || grammar(
            so_far,
            first + second,
        ) == Err::<ExportSpec, Seq<char>>(e),
    decreases first.len(),
{
    let line = first + second;
    if first.len() == 0 {
        assert(line =~= second);
    } else {
        assert(line[0] == first[0]);
        assert(line.skip(1) =~= first.skip(1) + second);
        let pair = first.len() > 1;
        if pair {
            assert(line[1] == first[1]);
            assert(line.skip(2) =~= first.skip(2) + second);
        }
        if first[0] == "--seed"@ {
            if pair && u64_of(first[1]) is Some && so_far.seed is None {
                let next = ExportSpec { seed: u64_of(first[1]), ..so_far };
                lemma_lines_join(next, first.skip(2), second);
            }
        } else if first[0] == "--freeze"@ {
            lemma_lines_join(ExportSpec { freeze: true, ..so_far }, first.skip(1), second);
        } else if first[0] == "--id"@ {
            if pair && so_far.new_id is None {
                let next = ExportSpec { new_id: Some(first[1]), ..so_far };
                lemma_lines_join(next, first.skip(2), second);
            }
        } else if first[0] == "--pack"@ {
            if pair {
                let next = ExportSpec { packs: so_far.packs.push(first[1]), ..so_far };
                lemma_lines_join(next, first.skip(2), second);
            }
        } else if first[0] == "--out"@ {
            if pair && so_far.out is None {
                let next = ExportSpec { out: Some(first[1]), ..so_far };
                lemma_lines_join(next, first.skip(2), second);
            }
        } else if !is_flag(first[0]) && so_far.target is None {
            let next = ExportSpec { target: Some(first[0]), ..so_far };
            lemma_lines_join(next, first.skip(1), second);
        }
    }
}

/// The command line that asks for `packs`, in order.
pub open spec fn pack_words(packs: Seq<Seq<char>>) -> Seq<Seq<char>>
    decreases packs.len(),
{
    if packs.len() == 0 {
        Seq::empty()
    } else {
        seq!["--pack"@, packs[0]] + pack_words(packs.skip(1))
    }
}

/// A flag with its value, or nothing.
pub open spec fn flag_words(flag: Seq<char>, value: Option<Seq<char>>) -> Seq<Seq<char>> {
    match value {
        Some(v) => seq![flag, v],
        None => Seq::empty(),
    }
}

/// The seed as it is typed.
pub open spec fn seed_text(seed: Option<u64>) -> Option<Seq<char>> {
    match seed {
        Some(n) => Some(decimal(n as nat)),
        None => None,
    }
}

/// A command line that says `c`.
pub open spec fn written(c: ExportSpec) -> Seq<Seq<char>> {
    seq![c.target->0] + (flag_words("--seed"@, seed_text(c.seed)) + ((if c.freeze {
        seq!["--freeze"@]
    } else {
        Seq::empty()
    }) + (flag_words("--id"@, c.new_id) + (pack_words(c.packs) + flag_words("--out"@, c.out)))))
}

/// Pack flags add their files in order and leave the rest of the line alone.
proof fn lemma_pack_words(so_far: ExportSpec, packs: Seq<Seq<char>>, rest: Seq<Seq<char>>)
    ensures
        grammar(so_far, pack_words(packs) + rest) == grammar(
            ExportSpec { packs: so_far.packs + packs, ..so_far },
            rest,
        ),
    decreases packs.len(),
{
    lemma_flags_differ();
    if packs.len() == 0 {
        assert(pack_words(packs) + rest =~= rest);
        assert(so_far.packs + packs =~= so_far.packs);
    } else {
        let line = pack_words(packs) + rest;
        let next = ExportSpec { packs: so_far.packs.push(packs[0]), ..so_far };
        assert(line[0] == "--pack"@);
        assert(line[1] == packs[0]);
        assert(line.skip(2) =~= pack_words(packs.skip(1)) + rest);
        lemma_pack_words(next, packs.skip(1), rest);
        assert(next.packs + packs.skip(1) =~= so_far.packs + packs);
    }
}

/// The flags are five different words, each written like a flag.
proof fn lemma_flags_differ()
    ensures
        is_flag("--seed"@),
        is_flag("--freeze"@),
        is_flag("--id"@),
        is_flag("--pack"@),
        is_flag("--out"@),
        "--freeze"@ != "--seed"@,
        "--id"@ != "--seed"@,
        "--id"@ != "--freeze"@,
        "--pack"@ != "--seed"@,
        "--pack"@ != "--freeze"@,
        "--pack"@ != "--id"@,
        "--out"@ != "--seed"@,
        "--out"@ != "--freeze"@,
        "--out"@ != "--id"@,
        "--out"@ != "--pack"@,
{
    reveal_strlit("--seed");
    reveal_strlit("--freeze");
    reveal_strlit("--id");
    reveal_strlit("--pack");
    reveal_strlit("--out");
    assert("--seed"@[2] == 's' && "--freeze"@[2] == 'f' && "--id"@[2] == 'i' && "--pack"@[2] == 'p'
        && "--out"@[2] == 'o');
}

/// Every request that names a body, and whose id and seed agree, has a command
/// line, and that line parses back to the request.
pub proof fn lemma_written_args_parse_back(c: ExportSpec, encoded: Option<u64>)
    requires
        c.target is Some,
        !is_flag(c.target->0),
        c.seed is Some && encoded is Some ==> c.seed == encoded,
    ensures
        parse(written(c), encoded) == Ok::<ExportSpec, Seq<char>>(c),
{
    lemma_flags_differ();
    let out_words = flag_words("--out"@, c.out);
    let from_packs = pack_words(c.packs) + out_words;
    let from_id = flag_words("--id"@, c.new_id) + from_packs;
    let freeze_words: Seq<Seq<char>> = if c.freeze {
        seq!["--freeze"@]
    } else {
        Seq::empty()
    };
    let from_freeze = freeze_words + from_id;
    let from_seed = flag_words("--seed"@, seed_text(c.seed)) + from_freeze;
    let line = seq![c.target->0] + from_seed;
    assert(written(c) == line);

    let a1 = ExportSpec { target: c.target, ..no_args() };
    assert(line.skip(1) =~= from_seed);
    assert(grammar(no_args(), line) == grammar(a1, from_seed));

    let a2 = ExportSpec { seed: c.seed, ..a1 };
    match c.seed {
        Some(n) => {
            crate::text::lemma_u64_round_trips(n);
            assert(from_seed[0] == "--seed"@);
            assert(from_seed[1] == decimal(n as nat));
            assert(from_seed.skip(2) =~= from_freeze);
        },
        None => {
            assert(from_seed =~= from_freeze);
        },
    }
    assert(grammar(a1, from_seed) == grammar(a2, from_freeze));

    let a3 = ExportSpec { freeze: c.freeze, ..a2 };
    if c.freeze {
        assert(from_freeze[0] == "--freeze"@);
        assert(from_freeze.skip(1) =~= from_id);
    } else {
        assert(from_freeze =~= from_id);
    }
    assert(grammar(a2, from_freeze) == grammar(a3, from_id));

    let a4 = ExportSpec { new_id: c.new_id, ..a3 };
    match c.new_id {
        Some(id) => {
            assert(from_id[0] == "--id"@);
            assert(from_id[1] == id);
            assert(from_id.skip(2) =~= from_packs);
        },
        None => {
            assert(from_id =~= from_packs);
        },
    }
    assert(grammar(a3, from_id) == grammar(a4, from_packs));

    lemma_pack_words(a4, c.packs, out_words);
    let a5 = ExportSpec { packs: a4.packs + c.packs, ..a4 };
    assert(a5.packs =~= c.packs);
    match c.out {
        Some(path) => {
            assert(out_words.skip(2) =~= Seq::<Seq<char>>::empty());
            assert(grammar(a5, out_words) == grammar(
                ExportSpec { out: Some(path), ..a5 },
                out_words.skip(2),
            ));
        },
        None => {},
    }
    assert(c =~= ExportSpec { out: c.out, ..a5 });
}

/// How far the subcommand came, and what it met there.
pub enum ExportOutcome {
    /// The arguments did not parse.
    Usage(String),
    /// A pack file could not be read: its path and the reason.
    PackUnreadable(String, String),
    /// The export engine refused: the reason.
    Refused(String),
    /// The record was exported and verified: its id, its digest and the pack,
    /// which goes to standard output.
    Printed(String, String, String),
    /// The record was exported and verified: its id and its digest; the pack
    /// went to the file that was asked for.
    Written(String, String),
    /// The record was exported and verified (its id and its digest), but the
    /// file could not be written: its path and the reason.
    Unwritable(String, String, String, String),
}

/// The receipt of a verified export.
pub open spec fn receipt(id: Seq<char>, digest: Seq<char>) -> Seq<char> {
    "verified: record `"@ + id + "` resolves with digest "@ + digest + "\n"@
}

/// What [`ExportOutcome`] says, as sequences.
#[verifier::ext_equal]
pub enum ExportVerdict {
    Usage(Seq<char>),
    PackUnreadable(Seq<char>, Seq<char>),
    Refused(Seq<char>),
    Printed(Seq<char>, Seq<char>, Seq<char>),
    Written(Seq<char>, Seq<char>),
    Unwritable(Seq<char>, Seq<char>, Seq<char>, Seq<char>),
}

impl View for ExportOutcome {
    type V = ExportVerdict;

    open spec fn view(&self) -> ExportVerdict {
        match self {
            ExportOutcome::Usage(e) => ExportVerdict::Usage(e@),
            ExportOutcome::PackUnreadable(path, why) => ExportVerdict::PackUnreadable(path@, why@),
            ExportOutcome::Refused(why) => ExportVerdict::Refused(why@),
            ExportOutcome::Printed(id, digest, pack) => ExportVerdict::Printed(
                id@,
                digest@,
                pack@,
            ),
            ExportOutcome::Written(id, digest) => ExportVerdict::Written(id@, digest@),
            ExportOutcome::Unwritable(id, digest, path, why) => ExportVerdict::Unwritable(
                id@,
                digest@,
                path@,
                why@,
            ),
        }
    }
}

/// A verified export: the record's id, its digest, and the pack that holds it.
#[derive(Debug, PartialEq, Eq)]
pub struct Export {
    pub record_id: String,
    pub digest: String,
    pub pack: String,
}

/// What was met on the way to an export. What comes after a failure was not tried, and
/// does not count.
pub struct ExportReads {
    /// The seed that the id on the line encodes, if it is a generated one.
    pub encoded: Option<u64>,
    /// The texts of the packs, or the path of the first that cannot be read, and why.
    pub packs: Result<Vec<String>, (String, String)>,
    /// What the export engine gives.
    pub export: Result<Export, String>,
    /// Whether the pack could be written; counts only where a file is asked for.
    pub write: Result<(), String>,
}

/// How far the subcommand comes: the arguments, the packs, the export and the file
/// are taken in this order, and the first failure decides. Without a file the pack is
/// printed.
pub open spec fn verdict(line: Result<ExportSpec, Seq<char>>, reads: ExportReads) -> ExportVerdict {
    match line {
        Err(e) => ExportVerdict::Usage(e),
        Ok(c) => match reads.packs {
            Err((path, why)) => ExportVerdict::PackUnreadable(path@, why@),
            Ok(_) => match reads.export {
                Err(why) => ExportVerdict::Refused(why@),
                Ok(x) => match c.out {
                    None => ExportVerdict::Printed(x.record_id@, x.digest@, x.pack@),
                    Some(path) => match reads.write {
                        Ok(_) => ExportVerdict::Written(x.record_id@, x.digest@),
                        Err(why) => ExportVerdict::Unwritable(
                            x.record_id@,
                            x.digest@,
                            path,
                            why@,
                        ),
                    },
                },
            },
        },
    }
}

/// How far the subcommand comes.
pub fn export_outcome(parsed: Result<ExportArgs, String>, reads: ExportReads) -> (o: ExportOutcome)
    ensures
        o@ == verdict(outcome(parsed), reads),
{
    let args: ExportArgs = match parsed {
        Ok(args) => args,
        Err(e) => {
            return ExportOutcome::Usage(e);
        },
    };
    if let Err((path, why)) = reads.packs {
        return ExportOutcome::PackUnreadable(path, why);
    }
    match reads.export {
        Err(why) => ExportOutcome::Refused(why),
        Ok(x) => match args.out {
            None => ExportOutcome::Printed(x.record_id, x.digest, x.pack),
            Some(path) => match reads.write {
                Ok(_) => ExportOutcome::Written(x.record_id, x.digest),
                Err(why) => ExportOutcome::Unwritable(x.record_id, x.digest, path, why),
            },
        },
    }
}

/// The file that an export is written to and what goes into it, if there is one.
pub open spec fn file_of(c: ExportSpec, export: Result<Export, String>) -> Option<
    (Seq<char>, Seq<char>),
> {
    match (c.out, export) {
        (Some(path), Ok(x)) => Some((path, x.pack@)),
        _ => None,
    }
}

/// The file that an export is written to and what goes into it: the pack, and only
/// where a file is asked for and the export succeeded.
pub fn file_to_write<'a>(args: &'a ExportArgs, export: &'a Result<Export, String>) -> (f: Option<
    (&'a str, &'a str),
>)
    ensures
        match f {
            Some((path, text)) => file_of(args@, *export) == Some((path@, text@)),
            None => file_of(args@, *export) is None,
        },
{
    match (&args.out, export) {
        (Some(path), Ok(x)) => Some((path.as_str(), x.pack.as_str())),
        _ => None,
    }
}

/// What `export-body` prints and returns for each outcome.
pub open spec fn transcript_of(v: ExportVerdict) -> (Seq<char>, Seq<char>, int) {
    match v {
        ExportVerdict::Usage(e) => (Seq::empty(), e + "\n"@ + USAGE@ + "\n"@, 2),
        ExportVerdict::PackUnreadable(path, why) => (
            Seq::empty(),
            "cannot read pack "@ + path + ": "@ + why + "\n"@,
            1,
        ),
        ExportVerdict::Refused(why) => (Seq::empty(), why + "\n"@, 1),
        ExportVerdict::Printed(id, digest, pack) => (pack, receipt(id, digest), 0),
        ExportVerdict::Written(id, digest) => (Seq::empty(), receipt(id, digest), 0),
        ExportVerdict::Unwritable(id, digest, path, why) => (
            Seq::empty(),
            receipt(id, digest) + ("cannot write "@ + path + ": "@ + why + "\n"@),
            1,
        ),
    }
}

/// The subcommand exits with 2 exactly when its arguments do not parse, and with 0
/// exactly when the export succeeds and, where a file is asked for, is written. On
/// success the pack goes to standard output without a file, and to the file alone
/// with one; a failed export leaves neither.
pub proof fn lemma_export_exit_codes(line: Result<ExportSpec, Seq<char>>, reads: ExportReads)
    ensures
        ({
            let t = transcript_of(verdict(line, reads));
            let exported = line is Ok && reads.packs is Ok && reads.export is Ok;
            let works = exported && (line->Ok_0.out is Some ==> reads.write is Ok);
            &&& t.2 == 2 <==> line is Err
            &&& t.2 == 0 <==> works
            &&& t.2 == 1 <==> line is Ok && !works
            &&& exported && line->Ok_0.out is None ==> t.0 == reads.export->Ok_0.pack@ && file_of(
                line->Ok_0,
                reads.export,
            ) is None
            &&& exported && line->Ok_0.out is Some ==> t.0.len() == 0 && file_of(
                line->Ok_0,
                reads.export,
            ) == Some((line->Ok_0.out->0, reads.export->Ok_0.pack@))
            &&& !exported ==> t.0.len() == 0
            &&& line is Ok && reads.export is Err ==> file_of(line->Ok_0, reads.export) is None
        }),
{
}

/// `sounding export-body`: what it prints and its exit code, given the arguments and
/// what is met on the way.
pub fn run(args: &[String], reads: ExportReads) -> (t: Transcript)
    ensures
        (t.out@, t.err@, t.code as int) == transcript_of(
            verdict(parse(args.deep_view(), reads.encoded), reads),
        ),
{
    let parsed: Result<ExportArgs, String> = parse_args(args, reads.encoded);
    let o: ExportOutcome = export_outcome(parsed, reads);
    transcript(&o)
}

/// The receipt line.
fn receipt_text(id: &str, digest: &str) -> (out: String)
    ensures
        out@ == receipt(id@, digest@),
{
    let mut out: String = join3("verified: record `", id, "` resolves with digest ");
    out.append(digest);
    out.append("\n");
    out
}

/// What the subcommand prints and its exit code.
pub fn transcript(outcome: &ExportOutcome) -> (t: Transcript)
    ensures
        (t.out@, t.err@, t.code as int) == transcript_of(outcome@),
{
    match outcome {
        ExportOutcome::Usage(e) => {
            let mut err: String = join3(e.as_str(), "\n", USAGE);
            err.append("\n");
            Transcript { out: String::new(), err, code: 2 }
        },
        ExportOutcome::PackUnreadable(path, why) => {
            let mut err: String = join3("cannot read pack ", path.as_str(), ": ");
            err.append(why.as_str());
            err.append("\n");
            Transcript { out: String::new(), err, code: 1 }
        },
        ExportOutcome::Refused(why) => {
            Transcript { out: String::new(), err: join2(why.as_str(), "\n"), code: 1 }
        },
        ExportOutcome::Printed(id, digest, pack) => {
            Transcript {
                out: pack.as_str().to_owned(),
                err: receipt_text(id.as_str(), digest.as_str()),
                code: 0,
            }
        },
        ExportOutcome::Written(id, digest) => {
            Transcript {
                out: String::new(),
                err: receipt_text(id.as_str(), digest.as_str()),
                code: 0,
            }
        },
        ExportOutcome::Unwritable(id, digest, path, why) => {
            let mut err: String = receipt_text(id.as_str(), digest.as_str());
            let mut note: String = join3("cannot write ", path.as_str(), ": ");
            note.append(why.as_str());
            note.append("\n");
            err.append(note.as_str());
            Transcript { out: String::new(), err, code: 1 }
        },
    }
}

/// A line is refused at its first word that does not fit, for that word's own reason; a flag
/// that takes a value cannot be given twice, and `--freeze` can.
pub proof fn lemma_a_bad_word_is_told(first: Seq<Seq<char>>, c: ExportSpec, word: Seq<char>)
    requires
        grammar(no_args(), first) == Ok::<ExportSpec, Seq<char>>(c),
    ensures
        grammar(no_args(), first + seq!["--seed"@]) == Err::<ExportSpec, Seq<char>>(
            "--seed requires a value"@,
        ),
        grammar(no_args(), first + seq!["--id"@]) == Err::<ExportSpec, Seq<char>>(
            "--id requires a record id"@,
        ),
        grammar(no_args(), first + seq!["--pack"@]) == Err::<ExportSpec, Seq<char>>(
            "--pack requires a file path"@,
        ),
        grammar(no_args(), first + seq!["--out"@]) == Err::<ExportSpec, Seq<char>>(
            "--out requires a file path"@,
        ),
        u64_of(word) is None ==> grammar(no_args(), first + seq!["--seed"@, word]) == Err::<
            ExportSpec,
            Seq<char>,
        >("--seed requires a non-negative integer"@),
        u64_of(word) is Some && c.seed is Some ==> grammar(no_args(), first + seq!["--seed"@, word])
            == Err::<ExportSpec, Seq<char>>("--seed given twice"@),
        c.new_id is Some ==> grammar(no_args(), first + seq!["--id"@, word]) == Err::<
            ExportSpec,
            Seq<char>,
        >("--id given twice"@),
        c.out is Some ==> grammar(no_args(), first + seq!["--out"@, word]) == Err::<
            ExportSpec,
            Seq<char>,
        >("--out given twice"@),
        grammar(no_args(), first + seq!["--freeze"@]) == Ok::<ExportSpec, Seq<char>>(
            ExportSpec { freeze: true, ..c },
        ),
        !is_flag(word) && c.target is Some ==> grammar(no_args(), first + seq![word]) == Err::<
            ExportSpec,
            Seq<char>,
        >("unexpected argument `"@ + word + "`"@),
        is_flag(word) && word != "--seed"@ && word != "--freeze"@ && word != "--id"@ && word
            != "--pack"@ && word != "--out"@ ==> grammar(no_args(), first + seq![word]) == Err::<
            ExportSpec,
            Seq<char>,
        >("unknown flag `"@ + word + "`"@),
{
    lemma_flags_differ();
    reveal_with_fuel(grammar, 2);
    lemma_lines_join(no_args(), first, seq![word]);
    lemma_lines_join(no_args(), first, seq!["--seed"@]);
    lemma_lines_join(no_args(), first, seq!["--id"@]);
    lemma_lines_join(no_args(), first, seq!["--pack"@]);
    lemma_lines_join(no_args(), first, seq!["--out"@]);
    lemma_lines_join(no_args(), first, seq!["--freeze"@]);
    lemma_lines_join(no_args(), first, seq!["--seed"@, word]);
    lemma_lines_join(no_args(), first, seq!["--id"@, word]);
    lemma_lines_join(no_args(), first, seq!["--out"@, word]);
    assert(seq!["--freeze"@].skip(1) =~= Seq::<Seq<char>>::empty());
}

/// A line that fits is refused only if it names no body, or if its seed and its id disagree;
/// the message then holds both seeds, the line's own first.
pub proof fn lemma_a_fitting_line_is_refused_for_its_seed(
    args: Seq<Seq<char>>,
    c: ExportSpec,
    encoded: Option<u64>,
)
    requires
        grammar(no_args(), args) == Ok::<ExportSpec, Seq<char>>(c),
    ensures
        parse(args, encoded) is Ok ==> parse(args, encoded) == Ok::<ExportSpec, Seq<char>>(c),
        c.target is None ==> parse(args, encoded) == Err::<ExportSpec, Seq<char>>(
            "a body id is required"@,
        ),
        c.target is Some && (c.seed is None || encoded is None) ==> parse(args, encoded) is Ok,
        c.target is Some && c.seed is Some && encoded is Some && c.seed->0 != encoded->0 ==> parse(
            args,
            encoded,
        ) == Err::<ExportSpec, Seq<char>>(
            "--seed "@ + decimal(c.seed->0 as nat) + " contradicts the id's encoded seed "@
                + decimal(encoded->0 as nat) + " — a generated id IS its seed"@,
        ),
{
}

/// What is printed names what went wrong, and every export leaves its receipt with the
/// record's id and digest, whether or not the file could be written.
pub proof fn lemma_export_says_what_it_met(line: Result<ExportSpec, Seq<char>>, reads: ExportReads)
    ensures
        ({
            let t = transcript_of(verdict(line, reads));
            let x = reads.export->Ok_0;
            let exported = line is Ok && reads.packs is Ok && reads.export is Ok;
            let stamp = "verified: record `"@ + x.record_id@ + "` resolves with digest "@
                + x.digest@ + "\n"@;
            let failed = exported && line->Ok_0.out is Some && reads.write is Err;
            &&& line is Err ==> t.1 == line->Err_0 + "\n"@ + USAGE@ + "\n"@
            &&& line is Ok && reads.packs is Err ==> t.1 == "cannot read pack "@ + (
            reads.packs->Err_0).0@ + ": "@ + (reads.packs->Err_0).1@ + "\n"@
            &&& line is Ok && reads.packs is Ok && reads.export is Err ==> t.1
                == reads.export->Err_0@ + "\n"@
            &&& exported && !failed ==> t.1 == stamp
            &&& failed ==> t.1 == stamp + ("cannot write "@ + line->Ok_0.out->0 + ": "@
                + reads.write->Err_0@ + "\n"@)
        }),
{
}

} // verus!
