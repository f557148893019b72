//! `sounding check`: the headless authoring report.
//!
//! The arguments after `check` are parsed here, and what the subcommand prints
//! and returns is decided here; reading the packs and running the report engine
//! is the caller's part.

use crate::text::join3;
use crate::text::same_text;
use vstd::prelude::*;

verus! {

/// Parsed `check` arguments: `sounding check [recipe-id] [--pack FILE ...]
/// [--save FILE]`.
#[derive(Debug, PartialEq, Eq)]
pub struct CheckArgs {
    /// Narrow the report to one body recipe.
    pub recipe: Option<String>,
    /// Extra pack files composed after the embedded canonical pack.
    pub packs: Vec<String>,
    /// A world save to classify against the composed catalog.
    pub save: Option<String>,
}

/// The one-line usage text.
pub const USAGE: &'static str = "usage: sounding check [recipe-id] [--pack FILE ...] [--save FILE]";

/// What [`CheckArgs`] says, as sequences.
#[verifier::ext_equal]
pub struct CheckSpec {
    pub recipe: Option<Seq<char>>,
    pub packs: Seq<Seq<char>>,
    pub save: Option<Seq<char>>,
}

impl View for CheckArgs {
    type V = CheckSpec;

    open spec fn view(&self) -> CheckSpec {
        CheckSpec {
            recipe: self.recipe.deep_view(),
            packs: self.packs.deep_view(),
            save: self.save.deep_view(),
        }
    }
}

impl Default for CheckArgs {
    fn default() -> (args: CheckArgs)
        ensures
            args@ == no_args(),
    {
        let args = CheckArgs { recipe: None, packs: Vec::new(), save: None };
        assert(args@.packs =~= Seq::<Seq<char>>::empty());
        args
    }
}

/// Nothing asked for.
pub open spec fn no_args() -> CheckSpec {
    CheckSpec { recipe: None, packs: Seq::empty(), save: None }
}

/// Whether an argument is written as a flag.
pub open spec fn is_flag(arg: Seq<char>) -> bool {
    arg.len() >= 2 && arg[0] == '-' && arg[1] == '-'
}

/// The grammar: `so_far` extended by `args`, or the message of the first
/// argument that does not fit.
pub open spec fn grammar(so_far: CheckSpec, args: Seq<Seq<char>>) -> Result<CheckSpec, Seq<char>>
    decreases args.len(),
{
    if args.len() == 0 {
        Ok(so_far)
    } else if args[0] == "--pack"@ {
        if args.len() == 1 {
            Err("--pack requires a file path"@)
        } else {
            grammar(CheckSpec { packs: so_far.packs.push(args[1]), ..so_far }, args.skip(2))
        }
    } else if args[0] == "--save"@ {
        if args.len() == 1 {
            Err("--save requires a file path"@)
        } else if so_far.save is Some {
            Err("--save given twice"@)
        } else {
            grammar(CheckSpec { save: Some(args[1]), ..so_far }, args.skip(2))
        }
    } else if is_flag(args[0]) {
        Err("unknown flag `"@ + args[0] + "`"@)
    } else if so_far.recipe is Some {
        Err("unexpected argument `"@ + args[0] + "`"@)
    } else {
        grammar(CheckSpec { recipe: Some(args[0]), ..so_far }, args.skip(1))
    }
}

/// The text of a parse result: the arguments' view, or the message.
pub open spec fn outcome(r: Result<CheckArgs, String>) -> Result<CheckSpec, Seq<char>> {
    match r {
        Ok(args) => Ok(args@),
        Err(e) => Err(e@),
    }
}

/// Whether `arg` starts with two dashes.
pub(crate) fn looks_like_flag(arg: &str) -> (b: bool)
    ensures
        b == is_flag(arg@),
{
    arg.unicode_len() >= 2 && arg.get_char(0) == '-' && arg.get_char(1) == '-'
}

/// Parses the arguments after `check`. Unknown flags, a repeated `--save` and a
/// second positional are usage errors.
pub fn parse_args(args: &[String]) -> (parsed: Result<CheckArgs, String>)
    ensures
        outcome(parsed) == grammar(no_args(), args.deep_view()),
{
    let mut parsed = CheckArgs::default();
    let ghost all = args.deep_view();
    let mut i: usize = 0;
    assert(all.skip(0) =~= all);
    while i < args.len()
        invariant
            i <= args.len(),
            all == args.deep_view(),
            grammar(parsed@, all.skip(i as int)) == grammar(no_args(), all),
        decreases args.len() - i,
    {
        let arg: &str = args[i].as_str();
        let ghost rest = all.skip(i as int);
        let ghost before = parsed@;
        assert(rest.len() == args.len() - i);
        assert(rest[0] == arg@);
        assert(i + 1 < args.len() ==> rest[1] == all[i + 1]);
        assert(rest.skip(1) =~= all.skip(i + 1));
        assert(rest.len() > 1 ==> rest.skip(2) =~= all.skip(i + 2));
        if same_text(arg, "--pack") {
            if i + 1 >= args.len() {
                return Err("--pack requires a file path".to_owned());
            }
            parsed.packs.push(args[i + 1].clone());
            assert(parsed@ =~= CheckSpec { packs: before.packs.push(rest[1]), ..before });
            i += 2;
        } else if same_text(arg, "--save") {
            if i + 1 >= args.len() {
                return Err("--save requires a file path".to_owned());
            }
            if parsed.save.is_some() {
                return Err("--save given twice".to_owned());
            }
            parsed.save = Some(args[i + 1].clone());
            assert(parsed@ =~= CheckSpec { save: Some(rest[1]), ..before });
            i += 2;
        } else if looks_like_flag(arg) {
            return Err(join3("unknown flag `", arg, "`"));
        } else if parsed.recipe.is_some() {
            return Err(join3("unexpected argument `", arg, "`"));
        } else {
            parsed.recipe = Some(arg.to_owned());
            assert(parsed@ =~= CheckSpec { recipe: Some(rest[0]), ..before });
            i += 1;
        }
    }
    assert(all.skip(args.len() as int) =~= Seq::<Seq<char>>::empty());
    Ok(parsed)
}

/// The command line that asks for `packs`, in order.
pub open spec fn pack_words(packs: Seq<Seq<char>>) -> Seq<Seq<char>>
    decreases packs.len(),
{
    if packs.len() == 0 {
        Seq::empty()
    } else {
        seq!["--pack"@, packs[0]] + pack_words(packs.skip(1))
    }
}

/// A command line that says `c`.
pub open spec fn written(c: CheckSpec) -> Seq<Seq<char>> {
    (match c.recipe {
        Some(id) => seq![id],
        None => Seq::empty(),
    }) + pack_words(c.packs) + (match c.save {
        Some(path) => seq!["--save"@, path],
        None => Seq::empty(),
    })
}

/// Pack flags add their files in order and leave the rest of the line alone.
proof fn lemma_pack_words(so_far: CheckSpec, packs: Seq<Seq<char>>, rest: Seq<Seq<char>>)
    ensures
        grammar(so_far, pack_words(packs) + rest) == grammar(
            CheckSpec { packs: so_far.packs + packs, ..so_far },
            rest,
        ),
    decreases packs.len(),
{
    if packs.len() == 0 {
        assert(pack_words(packs) + rest =~= rest);
        assert(so_far.packs + packs =~= so_far.packs);
    } else {
        let line = pack_words(packs) + rest;
        let next = CheckSpec { packs: so_far.packs.push(packs[0]), ..so_far };
        assert(line[0] == "--pack"@);
        assert(line[1] == packs[0]);
        assert(line.skip(2) =~= pack_words(packs.skip(1)) + rest);
        lemma_pack_words(next, packs.skip(1), rest);
        assert(next.packs + packs.skip(1) =~= so_far.packs + packs);
    }
}

/// Every request whose recipe is not written like a flag has a command line,
/// and that line parses back to the request.
pub proof fn lemma_written_args_parse_back(c: CheckSpec)
    requires
        c.recipe is Some ==> !is_flag(c.recipe->0),
    ensures
        grammar(no_args(), written(c)) == Ok::<CheckSpec, Seq<char>>(c),
{
    reveal_strlit("--pack");
    reveal_strlit("--save");
    assert("--pack"@[2] != "--save"@[2]);
    assert(is_flag("--pack"@) && is_flag("--save"@));
    let tail: Seq<Seq<char>> = match c.save {
        Some(path) => seq!["--save"@, path],
        None => Seq::empty(),
    };
    let with_recipe = CheckSpec { recipe: c.recipe, ..no_args() };
    let line = written(c);
    match c.recipe {
        Some(id) => {
            assert(line[0] == id);
            assert(line.skip(1) =~= pack_words(c.packs) + tail);
        },
        None => {
            assert(line =~= pack_words(c.packs) + tail);
        },
    }
    assert(grammar(no_args(), line) == grammar(with_recipe, pack_words(c.packs) + tail));
    lemma_pack_words(with_recipe, c.packs, tail);
    let with_packs = CheckSpec { packs: no_args().packs + c.packs, ..with_recipe };
    assert(with_packs.packs =~= c.packs);
    match c.save {
        Some(path) => {
            assert(tail.skip(2) =~= Seq::<Seq<char>>::empty());
            assert(grammar(with_packs, tail) == grammar(
                CheckSpec { save: Some(path), ..with_packs },
                tail.skip(2),
            ));
        },
        None => {},
    }
    assert(c =~= CheckSpec { save: c.save, ..with_packs });
}

/// A line that parses can go on: what follows is read on top of what it said. So a
/// line is refused for what it begins with, unless that only lacks its path.
pub proof fn lemma_lines_join(so_far: CheckSpec, first: Seq<Seq<char>>, second: Seq<Seq<char>>)
    ensures
        grammar(so_far, first) matches Ok(c) ==> grammar(so_far, first + second) == grammar(
            c,
            second,
        ),
        grammar(so_far, first) matches Err(e) ==> e == "--pack requires a file path"@ || e
            == "--save requires a file path"@ || grammar(so_far, first + second) == Err::<
            CheckSpec,
            Seq<char>,
        >(e),
    decreases first.len(),
{
    let line = first + second;
    if first.len() == 0 {
        assert(line =~= second);
    } else {
        assert(line[0] == first[0]);
        assert(line.skip(1) =~= first.skip(1) + second);
        if first.len() > 1 {
            assert(line[1] == first[1]);
            assert(line.skip(2) =~= first.skip(2) + second);
        }
        if first[0] == "--pack"@ {
            if first.len() > 1 {
                lemma_lines_join(
                    CheckSpec { packs: so_far.packs.push(first[1]), ..so_far },
                    first.skip(2),
                    second,
                );
            }
        } else if first[0] == "--save"@ {
            if first.len() > 1 && so_far.save is None {
                lemma_lines_join(
                    CheckSpec { save: Some(first[1]), ..so_far },
                    first.skip(2),
                    second,
                );
            }
        } else if !is_flag(first[0]) && so_far.recipe is None {
            lemma_lines_join(
                CheckSpec { recipe: Some(first[0]), ..so_far },
                first.skip(1),
                second,
            );
        }
    }
}

/// One thing that a command line asks for.
pub enum Wish {
    Recipe(Seq<char>),
    Pack(Seq<char>),
    Save(Seq<char>),
}

/// How one wish is written.
pub open spec fn words_of(w: Wish) -> Seq<Seq<char>> {
    match w {
        Wish::Recipe(id) => seq![id],
        Wish::Pack(path) => seq!["--pack"@, path],
        Wish::Save(path) => seq!["--save"@, path],
    }
}

/// A command line that asks for `wishes`, in that order.
pub open spec fn words(wishes: Seq<Wish>) -> Seq<Seq<char>>
    decreases wishes.len(),
{
    if wishes.len() == 0 {
        Seq::empty()
    } else {
        words(wishes.drop_last()) + words_of(wishes.last())
    }
}

/// A request with one wish more.
pub open spec fn wishing(c: CheckSpec, w: Wish) -> CheckSpec {
    match w {
        Wish::Recipe(id) => CheckSpec { recipe: Some(id), ..c },
        Wish::Pack(path) => CheckSpec { packs: c.packs.push(path), ..c },
        Wish::Save(path) => CheckSpec { save: Some(path), ..c },
    }
}

/// What `wishes` come to.
pub open spec fn gathered(wishes: Seq<Wish>) -> CheckSpec
    decreases wishes.len(),
{
    if wishes.len() == 0 {
        no_args()
    } else {
        wishing(gathered(wishes.drop_last()), wishes.last())
    }
}

/// Whether `wishes` can be asked for on one line: one recipe at most, not written
/// like a flag, and one save at most.
pub open spec fn can_be_asked(wishes: Seq<Wish>) -> bool {
    &&& forall|i: int| 0 <= i < wishes.len() ==> (#[trigger] wishes[i] matches Wish::Recipe(id)
        ==> !is_flag(id))
    &&& forall|i: int, j: int|
        0 <= i < j < wishes.len() ==> !(#[trigger] wishes[i] is Recipe && #[trigger] wishes[j]
            is Recipe) && !(wishes[i] is Save && wishes[j] is Save)
}

/// What is gathered has a recipe only if a wish is one, and a save likewise.
proof fn lemma_gathered_from_wishes(wishes: Seq<Wish>)
    ensures
        gathered(wishes).recipe is Some ==> exists|i: int|
            0 <= i < wishes.len() && #[trigger] wishes[i] is Recipe,
        gathered(wishes).save is Some ==> exists|i: int|
            0 <= i < wishes.len() && #[trigger] wishes[i] is Save,
    decreases wishes.len(),
{
    if wishes.len() > 0 {
        let front = wishes.drop_last();
        lemma_gathered_from_wishes(front);
        if gathered(front).recipe is Some {
            let i = choose|i: int| 0 <= i < front.len() && #[trigger] front[i] is Recipe;
            assert(wishes[i] is Recipe);
        }
        if gathered(front).save is Some {
            let i = choose|i: int| 0 <= i < front.len() && #[trigger] front[i] is Save;
            assert(wishes[i] is Save);
        }
        assert(wishes[wishes.len() - 1] == wishes.last());
    }
}

/// Whatever the order that recipe, packs and save are written in, the line says
/// them, and the packs keep their order.
pub proof fn lemma_any_order_parses_back(wishes: Seq<Wish>)
    requires
        can_be_asked(wishes),
    ensures
        grammar(no_args(), words(wishes)) == Ok::<CheckSpec, Seq<char>>(gathered(wishes)),
    decreases wishes.len(),
{
    if wishes.len() > 0 {
        let front = wishes.drop_last();
        assert(forall|i: int| 0 <= i < front.len() ==> front[i] == wishes[i]);
        lemma_any_order_parses_back(front);
        lemma_gathered_from_wishes(front);
        let so_far = gathered(front);
        let last = words_of(wishes.last());
        lemma_lines_join(no_args(), words(front), last);
        reveal_strlit("--pack");
        reveal_strlit("--save");
        assert("--pack"@[2] != "--save"@[2]);
        assert(is_flag("--pack"@) && is_flag("--save"@));
        assert(wishes[wishes.len() - 1] == wishes.last());
        assert(last.skip(last.len() as int) =~= Seq::<Seq<char>>::empty());
        assert(grammar(wishing(so_far, wishes.last()), last.skip(last.len() as int)) == Ok::<
            CheckSpec,
            Seq<char>,
        >(wishing(so_far, wishes.last())));
        if so_far.recipe is Some {
            let i = choose|i: int| 0 <= i < front.len() && #[trigger] front[i] is Recipe;
            assert(wishes[i] is Recipe);
        }
        if so_far.save is Some {
            let i = choose|i: int| 0 <= i < front.len() && #[trigger] front[i] is Save;
            assert(wishes[i] is Save);
        }
    }
}

/// A line that parses never yields a recipe written like a flag.
pub proof fn lemma_parsed_recipe_is_no_flag(so_far: CheckSpec, args: Seq<Seq<char>>)
    requires
        so_far.recipe is Some ==> !is_flag(so_far.recipe->0),
    ensures
        grammar(so_far, args) matches Ok(c) ==> (c.recipe is Some ==> !is_flag(c.recipe->0)),
    decreases args.len(),
{
    if args.len() > 0 {
        if args[0] == "--pack"@ {
            if args.len() > 1 {
                lemma_parsed_recipe_is_no_flag(
                    CheckSpec { packs: so_far.packs.push(args[1]), ..so_far },
                    args.skip(2),
                );
            }
        } else if args[0] == "--save"@ {
            if args.len() > 1 && so_far.save is None {
                lemma_parsed_recipe_is_no_flag(
                    CheckSpec { save: Some(args[1]), ..so_far },
                    args.skip(2),
                );
            }
        } else if !is_flag(args[0]) && so_far.recipe is None {
            lemma_parsed_recipe_is_no_flag(
                CheckSpec { recipe: Some(args[0]), ..so_far },
                args.skip(1),
            );
        }
    }
}

/// How far the subcommand came, and what it met there.
pub enum CheckOutcome {
    /// The arguments did not parse.
    Usage(String),
    /// A pack file could not be read: its path and the reason.
    PackUnreadable(String, String),
    /// The world save could not be loaded: its path and the reason.
    SaveUnloadable(String, String),
    /// The catalog did not compose, or the report engine refused: the reason.
    Refused(String),
    /// The report's text, and whether a save was loaded that holds no scenario
    /// state.
    Report(String, bool),
}

/// What [`CheckOutcome`] says, as sequences.
#[verifier::ext_equal]
pub enum CheckVerdict {
    Usage(Seq<char>),
    PackUnreadable(Seq<char>, Seq<char>),
    SaveUnloadable(Seq<char>, Seq<char>),
    Refused(Seq<char>),
    Report(Seq<char>, bool),
}

impl View for CheckOutcome {
    type V = CheckVerdict;

    open spec fn view(&self) -> CheckVerdict {
        match self {
            CheckOutcome::Usage(e) => CheckVerdict::Usage(e@),
            CheckOutcome::PackUnreadable(path, why) => CheckVerdict::PackUnreadable(path@, why@),
            CheckOutcome::SaveUnloadable(path, why) => CheckVerdict::SaveUnloadable(path@, why@),
            CheckOutcome::Refused(why) => CheckVerdict::Refused(why@),
            CheckOutcome::Report(text, bare_save) => CheckVerdict::Report(text@, *bare_save),
        }
    }
}

/// What was met on the way to a report. What comes after a failure was not tried, and
/// does not count.
pub struct CheckReads {
    /// The texts of the packs, or the path of the first that cannot be read, and why.
    pub packs: Result<Vec<String>, (String, String)>,
    /// Whether the packs compose to a catalog; counts only where there are packs.
    pub catalog: Result<(), String>,
    /// Whether the save holds scenario state; counts only where a save is asked for.
    pub save: Result<bool, String>,
    /// The report's text.
    pub report: Result<String, String>,
}

/// How far the subcommand comes: the arguments, the packs, the catalog, the save and
/// the report are taken in this order, and the first failure decides.
pub open spec fn verdict(line: Result<CheckSpec, Seq<char>>, reads: CheckReads) -> CheckVerdict {
    match line {
        Err(e) => CheckVerdict::Usage(e),
        Ok(c) => match reads.packs {
            Err((path, why)) => CheckVerdict::PackUnreadable(path@, why@),
            Ok(_) => if c.packs.len() > 0 && reads.catalog is Err {
                CheckVerdict::Refused(reads.catalog->Err_0@)
            } else if c.save is Some && reads.save is Err {
                CheckVerdict::SaveUnloadable(c.save->0, reads.save->Err_0@)
            } else {
                match reads.report {
                    Err(why) => CheckVerdict::Refused(why@),
                    Ok(text) => CheckVerdict::Report(
                        text@,
                        c.save is Some && reads.save == Ok::<bool, String>(false),
                    ),
                }
            },
        },
    }
}

/// How far the subcommand comes.
pub fn check_outcome(parsed: Result<CheckArgs, String>, reads: CheckReads) -> (o: CheckOutcome)
    ensures
        o@ == verdict(outcome(parsed), reads),
{
    let args: CheckArgs = match parsed {
        Ok(args) => args,
        Err(e) => {
            return CheckOutcome::Usage(e);
        },
    };
    if let Err((path, why)) = reads.packs {
        return CheckOutcome::PackUnreadable(path, why);
    }
    assert(args@.packs.len() == args.packs@.len());
    if args.packs.len() > 0 {
        if let Err(why) = reads.catalog {
            return CheckOutcome::Refused(why);
        }
    }
    let mut bare: bool = false;
    if let Some(path) = args.save {
        match reads.save {
            Ok(holds) => {
                bare = !holds;
            },
            Err(why) => {
                return CheckOutcome::SaveUnloadable(path, why);
            },
        }
    }
    match reads.report {
        Ok(text) => CheckOutcome::Report(text, bare),
        Err(why) => CheckOutcome::Refused(why),
    }
}

/// What a subcommand leaves behind: standard output, standard error, exit code.
pub struct Transcript {
    pub out: String,
    pub err: String,
    pub code: i32,
}

/// What `check` prints and returns for each outcome: usage errors exit with 2,
/// typed failures with 1, a report with 0 whatever it warns of.
pub open spec fn transcript_of(v: CheckVerdict) -> (Seq<char>, Seq<char>, int) {
    match v {
        CheckVerdict::Usage(e) => (Seq::empty(), e + "\n"@ + USAGE@ + "\n"@, 2),
        CheckVerdict::PackUnreadable(path, why) => (
            Seq::empty(),
            "cannot read pack "@ + path + ": "@ + why + "\n"@,
            1,
        ),
        CheckVerdict::SaveUnloadable(path, why) => (
            Seq::empty(),
            "cannot load save "@ + path + ": "@ + why + "\n"@,
            1,
        ),
        CheckVerdict::Refused(why) => (Seq::empty(), why + "\n"@, 1),
        CheckVerdict::Report(text, bare_save) => (
            if bare_save {
                text + "world save: no scenario state (no body records to check)\n"@
            } else {
                text
            },
            Seq::empty(),
            0,
        ),
    }
}

/// The subcommand exits with 2 exactly when its arguments do not parse, with 0
/// exactly when everything that is asked for works out, and else with 1; it prints
/// to one of its two outputs only.
pub proof fn lemma_check_exit_codes(line: Result<CheckSpec, Seq<char>>, reads: CheckReads)
    ensures
        ({
            let t = transcript_of(verdict(line, reads));
            let works = line is Ok && reads.packs is Ok && (line->Ok_0.packs.len() > 0
                ==> reads.catalog is Ok) && (line->Ok_0.save is Some ==> reads.save is Ok)
                && reads.report is Ok;
            &&& t.2 == 2 <==> line is Err
            &&& t.2 == 0 <==> works
            &&& t.2 == 1 <==> line is Ok && !works
            &&& t.2 == 0 ==> t.1.len() == 0
            &&& t.2 != 0 ==> t.0.len() == 0
        }),
{
}

/// `sounding check`: what it prints and its exit code, given the arguments and what
/// is met on the way.
pub fn run(args: &[String], reads: CheckReads) -> (t: Transcript)
    ensures
        (t.out@, t.err@, t.code as int) == transcript_of(
            verdict(grammar(no_args(), args.deep_view()), reads),
        ),
{
    let o: CheckOutcome = check_outcome(parse_args(args), reads);
    transcript(&o)
}

/// What the subcommand prints and its exit code.
pub fn transcript(outcome: &CheckOutcome) -> (t: Transcript)
    ensures
        (t.out@, t.err@, t.code as int) == transcript_of(outcome@),
{
    match outcome {
        CheckOutcome::Usage(e) => {
            let mut err: String = join3(e.as_str(), "\n", USAGE);
            err.append("\n");
            Transcript { out: String::new(), err, code: 2 }
        },
        CheckOutcome::PackUnreadable(path, why) => {
            let mut err: String = join3("cannot read pack ", path.as_str(), ": ");
            err.append(why.as_str());
            err.append("\n");
            Transcript { out: String::new(), err, code: 1 }
        },
        CheckOutcome::SaveUnloadable(path, why) => {
            let mut err: String = join3("cannot load save ", path.as_str(), ": ");
            err.append(why.as_str());
            err.append("\n");
            Transcript { out: String::new(), err, code: 1 }
        },
        CheckOutcome::Refused(why) => {
            let mut err: String = why.as_str().to_owned();
            err.append("\n");
            Transcript { out: String::new(), err, code: 1 }
        },
        CheckOutcome::Report(text, bare_save) => {
            let mut out: String = text.as_str().to_owned();
            if *bare_save {
                out.append("world save: no scenario state (no body records to check)\n");
            }
            Transcript { out, err: String::new(), code: 0 }
        },
    }
}

/// The sources that make up the catalog, in order.
pub open spec fn composed(embedded: Seq<char>, packs: Seq<Seq<char>>) -> Seq<Seq<char>> {
    seq![embedded] + packs
}

/// The embedded pack is read before every file on the command line, and each file after those
/// named before it.
pub proof fn lemma_files_build_on_the_embedded_pack(embedded: Seq<char>, packs: Seq<Seq<char>>)
    ensures
        composed(embedded, packs).len() == packs.len() + 1,
        composed(embedded, packs)[0] == embedded,
        forall|i: int| 0 <= i < packs.len() ==> composed(embedded, packs)[i + 1] == #[trigger] packs[i],
{
}

/// The sources that make up the catalog: the embedded pack first, so that the
/// files named on the command line can build on it, then those files in order.
pub fn composition(embedded: &str, packs: &Vec<String>) -> (texts: Vec<String>)
    ensures
        texts.deep_view() == seq![embedded@] + packs.deep_view(),
        texts.deep_view() == composed(embedded@, packs.deep_view()),
{
    let mut texts: Vec<String> = Vec::new();
    texts.push(embedded.to_owned());
    let mut i: usize = 0;
    assert(texts.deep_view() =~= seq![embedded@] + packs.deep_view().take(0));
    while i < packs.len()
        invariant
            i <= packs.len(),
            texts.deep_view() == seq![embedded@] + packs.deep_view().take(i as int),
        decreases packs.len() - i,
    {
        let ghost before = texts.deep_view();
        texts.push(packs[i].clone());
        i += 1;
        assert(texts.deep_view() =~= before.push(packs.deep_view()[i - 1]));
        assert(texts.deep_view() =~= seq![embedded@] + packs.deep_view().take(i as int));
    }
    assert(packs.deep_view().take(packs.len() as int) =~= packs.deep_view());
    texts
}

/// A line is refused at its first word that does not fit, for that word's own reason.
pub proof fn lemma_a_bad_word_is_told(first: Seq<Seq<char>>, c: CheckSpec, word: Seq<char>)
    requires
        grammar(no_args(), first) == Ok::<CheckSpec, Seq<char>>(c),
    ensures
        word == "--pack"@ ==> grammar(no_args(), first + seq![word]) == Err::<CheckSpec, Seq<char>>(
            "--pack requires a file path"@,
        ),
        word == "--save"@ ==> grammar(no_args(), first + seq![word]) == Err::<CheckSpec, Seq<char>>(
            "--save requires a file path"@,
        ),
        c.save is Some ==> grammar(no_args(), first + seq!["--save"@, word]) == Err::<
            CheckSpec,
            Seq<char>,
        >("--save given twice"@),
        is_flag(word) && word != "--pack"@ && word != "--save"@ ==> grammar(
            no_args(),
            first + seq![word],
        ) == Err::<CheckSpec, Seq<char>>("unknown flag `"@ + word + "`"@),
        !is_flag(word) && c.recipe is Some ==> grammar(no_args(), first + seq![word]) == Err::<
            CheckSpec,
            Seq<char>,
        >("unexpected argument `"@ + word + "`"@),
        !is_flag(word) && c.recipe is None ==> grammar(no_args(), first + seq![word]) == Ok::<
            CheckSpec,
            Seq<char>,
        >(CheckSpec { recipe: Some(word), ..c }),
{
    reveal_strlit("--pack");
    reveal_strlit("--save");
    assert("--pack"@[2] != "--save"@[2]);
    assert(is_flag("--pack"@) && is_flag("--save"@));
    lemma_lines_join(no_args(), first, seq![word]);
    lemma_lines_join(no_args(), first, seq!["--save"@, word]);
    assert(seq![word].skip(1) =~= Seq::<Seq<char>>::empty());
    reveal_with_fuel(grammar, 2);
}

/// What is printed names what went wrong: the usage line after a bad line's message, the path
/// and the reason of a file that cannot be read, the reason of a refusal. A report is printed
/// as it is, with a note exactly if a save was asked for that holds no scenario state.
pub proof fn lemma_check_says_what_it_met(line: Result<CheckSpec, Seq<char>>, reads: CheckReads)
    ensures
        ({
            let t = transcript_of(verdict(line, reads));
            let c = line->Ok_0;
            let packed = line is Ok && reads.packs is Ok;
            let composes = packed && (c.packs.len() > 0 ==> reads.catalog is Ok);
            let loads = composes && (c.save is Some ==> reads.save is Ok);
            &&& line is Err ==> t.1 == line->Err_0 + "\n"@ + USAGE@ + "\n"@
            &&& line is Ok && reads.packs is Err ==> t.1 == "cannot read pack "@ + (
            reads.packs->Err_0).0@ + ": "@ + (reads.packs->Err_0).1@ + "\n"@
            &&& packed && !composes ==> t.1 == reads.catalog->Err_0@ + "\n"@
            &&& composes && !loads ==> t.1 == "cannot load save "@ + c.save->0 + ": "@
                + reads.save->Err_0@ + "\n"@
            &&& loads && reads.report is Err ==> t.1 == reads.report->Err_0@ + "\n"@
            &&& loads && reads.report is Ok && !(c.save is Some && !reads.save->Ok_0) ==> t.0
                == reads.report->Ok_0@
            &&& loads && reads.report is Ok && c.save is Some && !reads.save->Ok_0 ==> t.0
                == reads.report->Ok_0@
                + "world save: no scenario state (no body records to check)\n"@
        }),
{
}

/// A word is a flag exactly if it begins with two dashes.
pub proof fn lemma_flags_begin_with_two_dashes(word: Seq<char>, rest: Seq<char>)
    ensures
        is_flag("--"@ + rest),
        is_flag(word) <==> exists|tail: Seq<char>| word == "--"@ + tail,
{
    reveal_strlit("--");
    if is_flag(word) {
        assert(word =~= "--"@ + word.skip(2));
    }
}

} // verus!
