//! `ls`: options, which files and directory entries are listed, their
//! order, and the layout of a listing.
use vstd::prelude::*;
use crate::text::{
    chars_of, char_views, concat3, contains_char, push_char, string_views, strip_leading, trim,
    trim_start_char, trimmed,
};

verus! {

/// The settings of one `ls` run.
pub struct LsOptions {
    /// `-a`: also list names that begin with a dot, and `.` and `..`.
    pub show_all: bool,
    /// `-l`: one detailed line per file.
    pub long_format: bool,
    /// `-F`: mark directories, executables and links with a suffix.
    pub classify: bool,
    /// The files and directories to list, in the order given.
    pub files: Vec<String>,
}

/// `LsOptions` with its strings taken as character sequences.
pub struct LsSettings {
    pub show_all: bool,
    pub long_format: bool,
    pub classify: bool,
    pub files: Seq<Seq<char>>,
}

impl View for LsOptions {
    type V = LsSettings;

    open spec fn view(&self) -> LsSettings {
        LsSettings {
            show_all: self.show_all,
            long_format: self.long_format,
            classify: self.classify,
            files: string_views(self.files@),
        }
    }
}

/// Settings before any argument is read.
pub open spec fn no_options() -> LsSettings {
    LsSettings { show_all: false, long_format: false, classify: false, files: Seq::empty() }
}

/// The option letters `cs` applied in order; the first letter that is not
/// an option is the error.
pub open spec fn apply_letters(st: LsSettings, cs: Seq<char>) -> Result<LsSettings, char>
    decreases cs.len(),
{
    if cs.len() == 0 {
        Ok(st)
    } else {
        let c = cs[0];
        if c == 'a' {
            apply_letters(LsSettings { show_all: true, ..st }, cs.drop_first())
        } else if c == 'l' {
            apply_letters(LsSettings { long_format: true, ..st }, cs.drop_first())
        } else if c == 'F' {
            apply_letters(LsSettings { classify: true, ..st }, cs.drop_first())
        } else {
            Err(c)
        }
    }
}

/// The arguments read in order. An argument holding a `-` anywhere is an
/// option group: its characters after the first are option letters. Any
/// other argument names a file.
pub open spec fn apply_args(st: LsSettings, args: Seq<Seq<char>>) -> Result<LsSettings, char>
    decreases args.len(),
{
    if args.len() == 0 {
        Ok(st)
    } else {
        let a = args[0];
        if a.contains('-') {
            match apply_letters(st, a.drop_first()) {
                Ok(next) => apply_args(next, args.drop_first()),
                Err(c) => Err(c),
            }
        } else {
            apply_args(LsSettings { files: st.files.push(a), ..st }, args.drop_first())
        }
    }
}

/// The message for an unknown option letter.
pub open spec fn invalid_option_message(c: char) -> Seq<char> {
    "ls: invalid option: - '"@ + seq![c] + "'"@
}

/// What `ls` makes of its arguments: the settings, with `.` as the only
/// file when none is named, or the message for the first unknown option.
pub open spec fn ls_settings(args: Seq<Seq<char>>) -> Result<LsSettings, Seq<char>> {
    match apply_args(no_options(), args) {
        Ok(st) => Ok(
            if st.files.len() == 0 {
                LsSettings { files: seq!["."@], ..st }
            } else {
                st
            },
        ),
        Err(c) => Err(invalid_option_message(c)),
    }
}

/// Reads the arguments of `ls`.
pub fn parse_ls_args(args: &[&str]) -> (r: Result<LsOptions, String>)
    ensures
        match r {
            Ok(o) => ls_settings(char_views(args@)) == Ok::<LsSettings, Seq<char>>(o@),
            Err(m) => ls_settings(char_views(args@)) == Err::<LsSettings, Seq<char>>(m@),
        },
{
    let ghost all = char_views(args@);
    let mut show_all = false;
    let mut long_format = false;
    let mut classify = false;
    let mut files: Vec<String> = Vec::new();
    let mut i: usize = 0;
    assert(all.skip(0) =~= all);
    assert(string_views(files@) =~= Seq::<Seq<char>>::empty());
    while i < args.len()
        invariant
            i <= args@.len(),
            all == char_views(args@),
            apply_args(no_options(), all) == apply_args(
                LsSettings {
                    show_all,
                    long_format,
                    classify,
                    files: string_views(files@),
                },
                all.skip(i as int),
            ),
        decreases args@.len() - i,
    {
        let arg = args[i];
        let ghost rest = all.skip(i as int);
        assert(rest[0] == arg@);
        assert(rest.drop_first() =~= all.skip(i + 1));
        if contains_char(arg, '-') {
            let arg_chars = chars_of(arg);
            let n = arg_chars.len();
            let ghost st0 = LsSettings { show_all, long_format, classify, files: string_views(files@) };
            let ghost letters = arg@.drop_first();
            let mut j: usize = 1;
            assert(letters.skip(0) =~= letters);
            while j < n
                invariant
                    n == arg@.len(),
                    arg_chars@ == arg@,
                    1 <= j <= n,
                    letters == arg@.drop_first(),
                    apply_letters(st0, letters) == apply_letters(
                        LsSettings { show_all, long_format, classify, files: string_views(files@) },
                        letters.skip(j - 1),
                    ),
                    st0.files == string_views(files@),
                    arg@.contains('-'),
                    rest.len() > 0,
                    rest[0] == arg@,
                    rest.drop_first() == all.skip(i + 1),
                    i < args@.len(),
                    all == char_views(args@),
                    apply_args(no_options(), all) == apply_args(st0, rest),
                decreases n - j,
            {
                let c = arg_chars[j];
                assert(letters.skip(j - 1)[0] == c);
                assert(letters.skip(j - 1).drop_first() =~= letters.skip(j as int));
                if c == 'a' {
                    show_all = true;
                } else if c == 'l' {
                    long_format = true;
                } else if c == 'F' {
                    classify = true;
                } else {
                    let mut m = String::from_str("ls: invalid option: - '");
                    push_char(&mut m, c);
                    m.append("'");
                    assert(arg@.contains('-'));
                    assert(apply_letters(st0, letters) == Err::<LsSettings, char>(c));
                    assert(apply_args(st0, rest) == Err::<LsSettings, char>(c));
                    assert(m@ =~= invalid_option_message(c));
                    return Err(m);
                }
                j = j + 1;
            }
            assert(letters.skip(j - 1).len() == 0);
        } else {
            let name = String::from_str(arg);
            proof {
                assert(string_views(files@.push(name)) =~= string_views(files@).push(arg@));
            }
            files.push(name);
        }
        i = i + 1;
    }
    if files.len() == 0 {
        files.push(String::from_str("."));
        assert(string_views(files@) =~= seq!["."@]);
    }
    Ok(LsOptions { show_all, long_format, classify, files })
}


/// Whether `arg` is an option group of known letters only: it holds a `-`,
/// and each of its characters after the first is `a`, `l` or `F`.
pub open spec fn known_options(arg: Seq<char>) -> bool {
    &&& arg.contains('-')
    &&& forall|i: int| 1 <= i < arg.len() ==> #[trigger] arg[i] == 'a' || arg[i] == 'l' || arg[i] == 'F'
}

/// Known option letters change the flags only.
proof fn lemma_known_letters(st: LsSettings, cs: Seq<char>)
    requires
        forall|i: int| 0 <= i < cs.len() ==> #[trigger] cs[i] == 'a' || cs[i] == 'l' || cs[i] == 'F',
    ensures
        apply_letters(st, cs) is Ok,
        apply_letters(st, cs)->Ok_0.files == st.files,
    decreases cs.len(),
{
    if cs.len() > 0 {
        let c = cs[0];
        let next = if c == 'a' {
            LsSettings { show_all: true, ..st }
        } else if c == 'l' {
            LsSettings { long_format: true, ..st }
        } else {
            LsSettings { classify: true, ..st }
        };
        assert forall|i: int| 0 <= i < cs.drop_first().len() implies #[trigger] cs.drop_first()[i] == 'a'
            || cs.drop_first()[i] == 'l' || cs.drop_first()[i] == 'F' by {
            assert(cs.drop_first()[i] == cs[i + 1]);
        }
        lemma_known_letters(next, cs.drop_first());
    }
}

/// After option groups of known letters only, a file name read last is the
/// one file added to what those groups set.
proof fn lemma_options_then_file(st: LsSettings, args: Seq<Seq<char>>, name: Seq<char>)
    requires
        forall|k: int| 0 <= k < args.len() ==> #[trigger] known_options(args[k]),
        !name.contains('-'),
    ensures
        apply_args(st, args) is Ok,
        apply_args(st, args)->Ok_0.files == st.files,
        apply_args(st, args.push(name)) == Ok::<LsSettings, char>(
            LsSettings { files: st.files.push(name), ..apply_args(st, args)->Ok_0 },
        ),
    decreases args.len(),
{
    if args.len() == 0 {
        assert(args.push(name) =~= seq![name]);
        assert(seq![name].drop_first() =~= Seq::<Seq<char>>::empty());
        let added = LsSettings { files: st.files.push(name), ..st };
        assert(apply_args(added, Seq::<Seq<char>>::empty()) == Ok::<LsSettings, char>(added));
        assert(apply_args(st, seq![name]) == apply_args(added, seq![name].drop_first()));
    } else {
        let a = args[0];
        assert(known_options(a));
        assert forall|i: int| 0 <= i < a.drop_first().len() implies #[trigger] a.drop_first()[i] == 'a'
            || a.drop_first()[i] == 'l' || a.drop_first()[i] == 'F' by {
            assert(a.drop_first()[i] == a[i + 1]);
        }
        lemma_known_letters(st, a.drop_first());
        let next = apply_letters(st, a.drop_first())->Ok_0;
        assert forall|k: int| 0 <= k < args.drop_first().len() implies #[trigger] known_options(
            args.drop_first()[k],
        ) by {
            assert(args.drop_first()[k] == args[k + 1]);
        }
        lemma_options_then_file(next, args.drop_first(), name);
        assert(args.push(name)[0] == a);
        assert(args.push(name).drop_first() =~= args.drop_first().push(name));
        assert(apply_args(st, args) == apply_args(next, args.drop_first()));
        assert(apply_args(st, args.push(name)) == apply_args(next, args.drop_first().push(name)));
    }
}

/// `ls` given option groups of known letters only lists the current
/// directory, exactly as `ls` given the same options and `.`.
pub proof fn law_options_only_list_current_directory(args: Seq<Seq<char>>)
    requires
        forall|k: int| 0 <= k < args.len() ==> #[trigger] known_options(args[k]),
    ensures
        ls_settings(args) is Ok,
        ls_settings(args)->Ok_0.files == seq!["."@],
        ls_settings(args) == ls_settings(args.push("."@)),
{
    reveal_strlit(".");
    assert(!"."@.contains('-')) by {
        if "."@.contains('-') {
            let i = choose|i: int| 0 <= i < "."@.len() && "."@[i] == '-';
            assert("."@[i] == '.');
        }
    }
    lemma_options_then_file(no_options(), args, "."@);
    assert(no_options().files.push("."@) =~= seq!["."@]);
}

/// Whether some option group among `args` (an argument holding a `-`)
/// has the letter `c` after its first character.
pub open spec fn option_letter_given(args: Seq<Seq<char>>, c: char) -> bool {
    exists|k: int, i: int|
        0 <= k < args.len() && args[k].contains('-') && 1 <= i < args[k].len() && #[trigger] args[k][i]
            == c
}

proof fn lemma_contains_split(cs: Seq<char>, x: char)
    requires
        cs.len() > 0,
    ensures
        cs.contains(x) <==> (cs[0] == x || cs.drop_first().contains(x)),
{
    if cs.drop_first().contains(x) {
        let j = choose|j: int| 0 <= j < cs.drop_first().len() && cs.drop_first()[j] == x;
        assert(cs[j + 1] == x);
    }
    if cs.contains(x) && cs[0] != x {
        let j = choose|j: int| 0 <= j < cs.len() && cs[j] == x;
        assert(cs.drop_first()[j - 1] == x);
    }
}

/// Option letters set exactly the flags they name, and no file.
proof fn lemma_letters_set_their_flags(st: LsSettings, cs: Seq<char>)
    ensures
        apply_letters(st, cs) matches Ok(next) ==> {
            &&& next.files == st.files
            &&& (next.show_all <==> st.show_all || cs.contains('a'))
            &&& (next.long_format <==> st.long_format || cs.contains('l'))
            &&& (next.classify <==> st.classify || cs.contains('F'))
        },
    decreases cs.len(),
{
    if cs.len() > 0 {
        lemma_contains_split(cs, 'a');
        lemma_contains_split(cs, 'l');
        lemma_contains_split(cs, 'F');
        let c = cs[0];
        if c == 'a' {
            lemma_letters_set_their_flags(LsSettings { show_all: true, ..st }, cs.drop_first());
        } else if c == 'l' {
            lemma_letters_set_their_flags(LsSettings { long_format: true, ..st }, cs.drop_first());
        } else if c == 'F' {
            lemma_letters_set_their_flags(LsSettings { classify: true, ..st }, cs.drop_first());
        }
    }
}

proof fn lemma_option_letter_split(args: Seq<Seq<char>>, c: char)
    requires
        args.len() > 0,
    ensures
        option_letter_given(args, c) <==> ((args[0].contains('-') && args[0].drop_first().contains(c))
            || option_letter_given(args.drop_first(), c)),
{
    let a = args[0];
    let rest = args.drop_first();
    if option_letter_given(args, c) {
        let (k, i) = choose|k: int, i: int|
            0 <= k < args.len() && args[k].contains('-') && 1 <= i < args[k].len() && #[trigger] args[k][i]
                == c;
        if k == 0 {
            assert(a.drop_first()[i - 1] == c);
        } else {
            assert(rest[k - 1] == args[k]);
            assert(rest[k - 1][i] == c);
        }
    }
    if a.contains('-') && a.drop_first().contains(c) {
        let j = choose|j: int| 0 <= j < a.drop_first().len() && a.drop_first()[j] == c;
        assert(args[0][j + 1] == c);
    }
    if option_letter_given(rest, c) {
        let (k, i) = choose|k: int, i: int|
            0 <= k < rest.len() && rest[k].contains('-') && 1 <= i < rest[k].len() && #[trigger] rest[k][i]
                == c;
        assert(args[k + 1] == rest[k]);
        assert(args[k + 1][i] == c);
    }
}

proof fn lemma_args_set_their_flags(st: LsSettings, args: Seq<Seq<char>>)
    ensures
        apply_args(st, args) matches Ok(next) ==> {
            &&& (next.show_all <==> st.show_all || option_letter_given(args, 'a'))
            &&& (next.long_format <==> st.long_format || option_letter_given(args, 'l'))
            &&& (next.classify <==> st.classify || option_letter_given(args, 'F'))
        },
    decreases args.len(),
{
    if args.len() == 0 {
    } else {
        lemma_option_letter_split(args, 'a');
        lemma_option_letter_split(args, 'l');
        lemma_option_letter_split(args, 'F');
        let a = args[0];
        if a.contains('-') {
            lemma_letters_set_their_flags(st, a.drop_first());
            match apply_letters(st, a.drop_first()) {
                Ok(next) => lemma_args_set_their_flags(next, args.drop_first()),
                Err(_) => {},
            }
        } else {
            lemma_args_set_their_flags(LsSettings { files: st.files.push(a), ..st }, args.drop_first());
        }
    }
}

/// Each option letter sets only its own flag: `ls` lists all names
/// exactly when some option group holds `a`, uses the long format exactly
/// when one holds `l`, and marks names exactly when one holds `F`.
pub proof fn law_each_option_letter_sets_its_flag(args: Seq<Seq<char>>)
    ensures
        ls_settings(args) matches Ok(st) ==> {
            &&& (st.show_all <==> option_letter_given(args, 'a'))
            &&& (st.long_format <==> option_letter_given(args, 'l'))
            &&& (st.classify <==> option_letter_given(args, 'F'))
        },
{
    lemma_args_set_their_flags(no_options(), args);
}

/// The arguments that name files (those without a `-`), in order.
pub open spec fn file_operands(args: Seq<Seq<char>>) -> Seq<Seq<char>>
    decreases args.len(),
{
    if args.len() == 0 {
        Seq::empty()
    } else if args[0].contains('-') {
        file_operands(args.drop_first())
    } else {
        seq![args[0]] + file_operands(args.drop_first())
    }
}

proof fn lemma_args_add_file_operands(st: LsSettings, args: Seq<Seq<char>>)
    ensures
        apply_args(st, args) matches Ok(next) ==> next.files == st.files + file_operands(args),
    decreases args.len(),
{
    if args.len() == 0 {
        assert(st.files + Seq::<Seq<char>>::empty() =~= st.files);
    } else {
        let a = args[0];
        if a.contains('-') {
            lemma_letters_set_their_flags(st, a.drop_first());
            match apply_letters(st, a.drop_first()) {
                Ok(next) => lemma_args_add_file_operands(next, args.drop_first()),
                Err(_) => {},
            }
        } else {
            lemma_args_add_file_operands(LsSettings { files: st.files.push(a), ..st }, args.drop_first());
            assert(st.files.push(a) + file_operands(args.drop_first()) =~= st.files + (seq![a]
                + file_operands(args.drop_first())));
        }
    }
}

/// `ls` lists the arguments that name files, in the order given, and the
/// current directory when there are none.
pub proof fn law_ls_lists_the_named_files(args: Seq<Seq<char>>)
    ensures
        ls_settings(args) matches Ok(st) ==> st.files == (if file_operands(args).len() == 0 {
            seq!["."@]
        } else {
            file_operands(args)
        }),
{
    lemma_args_add_file_operands(no_options(), args);
    assert(no_options().files + file_operands(args) =~= file_operands(args));
}

proof fn lemma_letters_ok(st: LsSettings, cs: Seq<char>)
    ensures
        apply_letters(st, cs) is Ok <==> forall|i: int| 0 <= i < cs.len() ==> #[trigger] cs[i] == 'a' || cs[i]
            == 'l' || cs[i] == 'F',
    decreases cs.len(),
{
    if cs.len() > 0 {
        let c = cs[0];
        let next = if c == 'a' {
            LsSettings { show_all: true, ..st }
        } else if c == 'l' {
            LsSettings { long_format: true, ..st }
        } else {
            LsSettings { classify: true, ..st }
        };
        lemma_letters_ok(next, cs.drop_first());
        assert forall|i: int| 0 <= i < cs.drop_first().len() implies cs.drop_first()[i] == cs[i + 1] by {}
        if forall|i: int| 0 <= i < cs.drop_first().len() ==> #[trigger] cs.drop_first()[i] == 'a' || cs.drop_first()[i]
            == 'l' || cs.drop_first()[i] == 'F' {
            assert forall|i: int| 1 <= i < cs.len() implies #[trigger] cs[i] == 'a' || cs[i] == 'l' || cs[i] == 'F' by {
                assert(cs[i] == cs.drop_first()[i - 1]);
            }
        }
    }
}

proof fn lemma_args_ok(st: LsSettings, args: Seq<Seq<char>>)
    ensures
        apply_args(st, args) is Ok <==> forall|k: int| 0 <= k < args.len() && args[k].contains('-') ==> #[trigger] known_options(args[k]),
    decreases args.len(),
{
    if args.len() > 0 {
        let a = args[0];
        let rest = args.drop_first();
        assert forall|k: int| 0 <= k < rest.len() implies rest[k] == args[k + 1] by {}
        lemma_letters_ok(st, a.drop_first());
        assert(known_options(a) <==> a.contains('-') && forall|i: int| 0 <= i < a.drop_first().len() ==> #[trigger] a.drop_first()[i] == 'a'
            || a.drop_first()[i] == 'l' || a.drop_first()[i] == 'F') by {
            if a.contains('-') && forall|i: int| 0 <= i < a.drop_first().len() ==> #[trigger] a.drop_first()[i] == 'a'
                || a.drop_first()[i] == 'l' || a.drop_first()[i] == 'F' {
                assert forall|i: int| 1 <= i < a.len() implies #[trigger] a[i] == 'a' || a[i] == 'l' || a[i] == 'F' by {
                    assert(a[i] == a.drop_first()[i - 1]);
                }
            }
            if known_options(a) {
                assert forall|i: int| 0 <= i < a.drop_first().len() implies #[trigger] a.drop_first()[i] == 'a'
                    || a.drop_first()[i] == 'l' || a.drop_first()[i] == 'F' by {
                    assert(a.drop_first()[i] == a[i + 1]);
                }
            }
        }
        let next = if a.contains('-') {
            match apply_letters(st, a.drop_first()) {
                Ok(n) => n,
                Err(_) => st,
            }
        } else {
            LsSettings { files: st.files.push(a), ..st }
        };
        lemma_args_ok(next, rest);
        if forall|k: int| 0 <= k < args.len() && args[k].contains('-') ==> #[trigger] known_options(args[k]) {
            assert(a.contains('-') ==> known_options(args[0]));
            assert forall|k: int| 0 <= k < rest.len() && rest[k].contains('-') implies #[trigger] known_options(rest[k]) by {
                assert(known_options(args[k + 1]));
            }
        }
        if apply_args(st, args) is Ok {
            assert forall|k: int| 0 <= k < args.len() && args[k].contains('-') implies #[trigger] known_options(args[k]) by {
                if k > 0 {
                    assert(args[k] == rest[k - 1]);
                }
            }
        }
    }
}

/// `ls` refuses its arguments exactly when some option group holds a
/// letter other than `a`, `l` and `F`.
pub proof fn law_ls_refuses_unknown_letters(args: Seq<Seq<char>>)
    ensures
        ls_settings(args) is Ok <==> forall|k: int| 0 <= k < args.len() && args[k].contains('-') ==> #[trigger] known_options(args[k]),
{
    lemma_args_ok(no_options(), args);
}

/// The Unicode lowercase form of `s`, as `str::to_lowercase` gives it.
pub uninterp spec fn lowercase(s: Seq<char>) -> Seq<char>;

/// `str::to_lowercase`: the named result `lowercase` of the characters.
#[verifier::external_body]
fn to_lowercase(s: &str) -> (r: String)
    ensures
        r@ == lowercase(s@),
{
    s.to_lowercase()
}

/// Whether `a` comes strictly before `b` in the order of `String`:
/// character by character, a proper prefix first.
pub open spec fn precedes(a: Seq<char>, b: Seq<char>) -> bool
    decreases a.len(),
{
    if a.len() == 0 {
        b.len() > 0
    } else if b.len() == 0 {
        false
    } else if a[0] != b[0] {
        a[0] < b[0]
    } else {
        precedes(a.drop_first(), b.drop_first())
    }
}

proof fn lemma_precedes_irreflexive(a: Seq<char>)
    ensures
        !precedes(a, a),
    decreases a.len(),
{
    if a.len() > 0 {
        lemma_precedes_irreflexive(a.drop_first());
    }
}

proof fn lemma_precedes_transitive(a: Seq<char>, b: Seq<char>, c: Seq<char>)
    requires
        precedes(a, b),
        precedes(b, c),
    ensures
        precedes(a, c),
    decreases a.len(),
{
    if a.len() > 0 && b.len() > 0 && c.len() > 0 && a[0] == b[0] && b[0] == c[0] {
        lemma_precedes_transitive(a.drop_first(), b.drop_first(), c.drop_first());
    }
}

proof fn lemma_precedes_total(a: Seq<char>, b: Seq<char>)
    ensures
        a == b || precedes(a, b) || precedes(b, a),
    decreases a.len(),
{
    if a.len() > 0 && b.len() > 0 && a[0] == b[0] {
        lemma_precedes_total(a.drop_first(), b.drop_first());
        if a.drop_first() == b.drop_first() {
            assert(a =~= seq![a[0]] + a.drop_first());
            assert(b =~= seq![b[0]] + b.drop_first());
        }
    } else if a.len() == 0 && b.len() == 0 {
        assert(a =~= b);
    }
}

proof fn lemma_precedes_asymmetric(a: Seq<char>, b: Seq<char>)
    requires
        precedes(a, b),
    ensures
        !precedes(b, a),
{
    if precedes(b, a) {
        lemma_precedes_transitive(a, b, a);
        lemma_precedes_irreflexive(a);
    }
}

/// Whether `a` comes strictly before `b`.
fn chars_precede(a: &Vec<char>, b: &Vec<char>) -> (r: bool)
    ensures
        r == precedes(a@, b@),
{
    let n = a.len();
    let m = b.len();
    let mut i: usize = 0;
    assert(a@.skip(0) =~= a@);
    assert(b@.skip(0) =~= b@);
    while i < n && i < m
        invariant
            n == a@.len(),
            m == b@.len(),
            i <= n,
            i <= m,
            precedes(a@, b@) == precedes(a@.skip(i as int), b@.skip(i as int)),
        decreases n - i,
    {
        let x = a[i];
        let y = b[i];
        assert(a@.skip(i as int)[0] == x);
        assert(b@.skip(i as int)[0] == y);
        if x != y {
            return x < y;
        }
        assert(a@.skip(i as int).drop_first() =~= a@.skip(i + 1));
        assert(b@.skip(i as int).drop_first() =~= b@.skip(i + 1));
        i = i + 1;
    }
    i == n && i < m
}

/// The key that orders a listing: the name without its leading dots, in
/// lowercase.
pub open spec fn sort_key(name: Seq<char>) -> Seq<char> {
    lowercase(strip_leading(name, '.'))
}

/// The sort key of each name.
pub open spec fn sort_keys(names: Seq<Seq<char>>) -> Seq<Seq<char>> {
    names.map_values(|n: Seq<char>| sort_key(n))
}

/// `order` holds each of `0..n` once.
pub open spec fn is_permutation(order: Seq<usize>, n: nat) -> bool {
    &&& order.len() == n
    &&& forall|a: int| 0 <= a < order.len() ==> #[trigger] order[a] < n
    &&& forall|a: int, b: int|
        #![trigger order[a], order[b]]
        0 <= a < b < order.len() ==> order[a] != order[b]
}

/// Listing the items in `order` puts their keys in ascending order and
/// keeps items with equal keys in their original order.
pub open spec fn is_sorted_stably(keys: Seq<Seq<char>>, order: Seq<usize>) -> bool {
    forall|a: int, b: int|
        #![trigger order[a], order[b]]
        0 <= a < b < order.len() ==> {
            &&& !precedes(keys[order[b] as int], keys[order[a] as int])
            &&& keys[order[a] as int] == keys[order[b] as int] ==> order[a] < order[b]
        }
}

/// `order` is the stable sort of the items by `keys`.
pub open spec fn is_stable_sort(keys: Seq<Seq<char>>, order: Seq<usize>) -> bool {
    is_permutation(order, keys.len()) && is_sorted_stably(keys, order)
}

proof fn lemma_insert_keeps_sorted(keys: Seq<Seq<char>>, order: Seq<usize>, i: usize, p: int)
    requires
        i < keys.len(),
        is_permutation(order, i as nat),
        is_sorted_stably(keys, order),
        0 <= p <= order.len(),
        forall|q: int| 0 <= q < p ==> !precedes(keys[i as int], #[trigger] keys[order[q] as int]),
        p < order.len() ==> precedes(keys[i as int], keys[order[p] as int]),
    ensures
        is_permutation(order.insert(p, i), (i + 1) as nat),
        is_sorted_stably(keys, order.insert(p, i)),
{
    let next = order.insert(p, i);
    assert forall|a: int| 0 <= a < next.len() implies #[trigger] next[a] < i + 1 by {
        if a < p {
            assert(next[a] == order[a]);
        } else if a > p {
            assert(next[a] == order[a - 1]);
        }
    }
    assert forall|a: int, b: int|
        #![trigger next[a], next[b]]
        0 <= a < b < next.len() implies next[a] != next[b] && {
            &&& !precedes(keys[next[b] as int], keys[next[a] as int])
            &&& keys[next[a] as int] == keys[next[b] as int] ==> next[a] < next[b]
        } by {
        let ki = keys[i as int];
        if a == p {
            let ob = order[b - 1];
            assert(next[b] == ob);
            assert(ob < i);
            let kp = keys[order[p] as int];
            let kb = keys[ob as int];
            assert(precedes(ki, kp));
            if b - 1 > p {
                assert(!precedes(keys[order[b - 1] as int], keys[order[p] as int]));
                lemma_precedes_total(kp, kb);
                if kp != kb {
                    lemma_precedes_transitive(ki, kp, kb);
                }
            }
            assert(precedes(ki, kb));
            lemma_precedes_asymmetric(ki, kb);
            lemma_precedes_irreflexive(ki);
        } else if b == p {
            assert(next[a] == order[a]);
            assert(order[a] < i);
        } else {
            let oa = if a < p { order[a] } else { order[a - 1] };
            let ob = if b < p { order[b] } else { order[b - 1] };
            let ia = if a < p { a } else { a - 1 };
            let ib = if b < p { b } else { b - 1 };
            assert(next[a] == order[ia]);
            assert(next[b] == order[ib]);
            assert(ia < ib);
            assert(order[ia] != order[ib]);
        }
    }
}

/// In a sorted order, once a key comes before an item's key it comes
/// before the keys of all later items.
proof fn lemma_sorted_monotone(keys: Seq<Seq<char>>, order: Seq<usize>, k: Seq<char>, q: int, r: int)
    requires
        is_sorted_stably(keys, order),
        0 <= q < r < order.len(),
        precedes(k, keys[order[q] as int]),
    ensures
        precedes(k, keys[order[r] as int]),
{
    let a = keys[order[q] as int];
    let b = keys[order[r] as int];
    assert(!precedes(keys[order[r] as int], keys[order[q] as int]));
    lemma_precedes_total(a, b);
    if a != b {
        lemma_precedes_transitive(k, a, b);
    }
}

/// The keys as character sequences.
pub open spec fn key_views(keys: Seq<Vec<char>>) -> Seq<Seq<char>> {
    keys.map_values(|k: Vec<char>| k@)
}

/// The positions of `keys` sorted by `precedes`, equal keys in their
/// original order (binary insertion).
fn order_by_keys(keys: &Vec<Vec<char>>) -> (order: Vec<usize>)
    ensures
        is_stable_sort(key_views(keys@), order@),
{
    let ghost ks = key_views(keys@);
    let mut order: Vec<usize> = Vec::new();
    let mut i: usize = 0;
    while i < keys.len()
        invariant
            i <= keys@.len(),
            ks == key_views(keys@),
            forall|q: int| 0 <= q < keys@.len() ==> #[trigger] keys@[q]@ == ks[q],
            is_permutation(order@, i as nat),
            is_sorted_stably(ks, order@),
        decreases keys@.len() - i,
    {
        let mut lo: usize = 0;
        let mut hi: usize = order.len();
        while lo < hi
            invariant
                i < keys@.len(),
                lo <= hi <= order@.len(),
                ks == key_views(keys@),
                forall|q: int| 0 <= q < keys@.len() ==> #[trigger] keys@[q]@ == ks[q],
                is_permutation(order@, i as nat),
                is_sorted_stably(ks, order@),
                forall|q: int| 0 <= q < lo ==> !precedes(ks[i as int], #[trigger] ks[order@[q] as int]),
                hi < order@.len() ==> precedes(ks[i as int], ks[order@[hi as int] as int]),
            decreases hi - lo,
        {
            let mid = lo + (hi - lo) / 2;
            if chars_precede(&keys[i], &keys[order[mid]]) {
                hi = mid;
            } else {
                proof {
                    assert forall|q: int| 0 <= q <= mid implies !precedes(
                        ks[i as int],
                        #[trigger] ks[order@[q] as int],
                    ) by {
                        if q < mid && precedes(ks[i as int], ks[order@[q] as int]) {
                            lemma_sorted_monotone(ks, order@, ks[i as int], q, mid as int);
                        }
                    }
                }
                lo = mid + 1;
            }
        }
        let j = lo;
        proof {
            lemma_insert_keeps_sorted(ks, order@, i, j as int);
        }
        order.insert(j, i);
        i = i + 1;
    }
    order
}

/// The positions of `names` in listing order: sorted by `sort_key`, names
/// with equal keys in their original order.
pub fn name_order(names: &Vec<String>) -> (order: Vec<usize>)
    ensures
        is_stable_sort(sort_keys(string_views(names@)), order@),
{
    let ghost ks = sort_keys(string_views(names@));
    let mut keys: Vec<Vec<char>> = Vec::new();
    let mut k: usize = 0;
    while k < names.len()
        invariant
            k <= names@.len(),
            ks == sort_keys(string_views(names@)),
            keys@.len() == k,
            forall|q: int| 0 <= q < k ==> #[trigger] keys@[q]@ == ks[q],
        decreases names@.len() - k,
    {
        let stripped = trim_start_char(names[k].as_str(), '.');
        let lowered = to_lowercase(stripped.as_str());
        keys.push(chars_of(lowered.as_str()));
        k = k + 1;
    }
    assert(key_views(keys@) =~= ks);
    order_by_keys(&keys)
}

/// The positions of `names` sorted character by character (the order of
/// `String`, and of the UTF-8 bytes), equal names in their original order.
pub fn plain_name_order(names: &Vec<String>) -> (order: Vec<usize>)
    ensures
        is_stable_sort(string_views(names@), order@),
{
    let mut keys: Vec<Vec<char>> = Vec::new();
    let mut k: usize = 0;
    while k < names.len()
        invariant
            k <= names@.len(),
            keys@.len() == k,
            forall|q: int| 0 <= q < k ==> #[trigger] keys@[q]@ == names@[q]@,
        decreases names@.len() - k,
    {
        keys.push(chars_of(names[k].as_str()));
        k = k + 1;
    }
    assert(key_views(keys@) =~= string_views(names@));
    order_by_keys(&keys)
}


/// One name in a directory listing and the path to look it up by.
pub struct DirEntry {
    pub path: String,
    pub display_name: String,
}


/// Whether a directory entry named `name` is listed: all are with `-a`,
/// otherwise those whose name does not begin with a dot.
pub fn is_listed(name: &str, show_all: bool) -> (r: bool)
    ensures
        r == (show_all || !(name@.len() > 0 && name@[0] == '.')),
{
    show_all || !crate::text::starts_with_char(name, '.')
}

/// What a named file turned out to be.
#[derive(Clone, Copy, PartialEq, Eq, Structural, Debug)]
pub enum TargetKind {
    /// It does not exist.
    Missing,
    /// A directory (or a link to one): its contents are listed.
    Directory,
    /// Anything else: listed as itself.
    Other,
}

/// The names of the given kind, in their original order.
pub open spec fn of_kind(names: Seq<Seq<char>>, kinds: Seq<TargetKind>, kind: TargetKind) -> Seq<Seq<char>>
    decreases names.len(),
{
    if names.len() == 0 || kinds.len() == 0 {
        Seq::empty()
    } else {
        let rest = of_kind(names.drop_last(), kinds.drop_last(), kind);
        if kinds.last() == kind {
            rest.push(names.last())
        } else {
            rest
        }
    }
}

/// The named files sorted by kind, each group in the order given.
pub struct Targets {
    pub missing: Vec<String>,
    pub files: Vec<String>,
    pub dirs: Vec<String>,
}

/// Sorts the named files into missing ones, other files and directories.
pub fn partition_targets(names: &Vec<String>, kinds: &Vec<TargetKind>) -> (r: Targets)
    requires
        names@.len() == kinds@.len(),
    ensures
        string_views(r.missing@) == of_kind(string_views(names@), kinds@, TargetKind::Missing),
        string_views(r.files@) == of_kind(string_views(names@), kinds@, TargetKind::Other),
        string_views(r.dirs@) == of_kind(string_views(names@), kinds@, TargetKind::Directory),
{
    let ghost all = string_views(names@);
    let mut missing: Vec<String> = Vec::new();
    let mut files: Vec<String> = Vec::new();
    let mut dirs: Vec<String> = Vec::new();
    let mut i: usize = 0;
    while i < names.len()
        invariant
            i <= names@.len(),
            names@.len() == kinds@.len(),
            all == string_views(names@),
            string_views(missing@) == of_kind(all.take(i as int), kinds@.take(i as int), TargetKind::Missing),
            string_views(files@) == of_kind(all.take(i as int), kinds@.take(i as int), TargetKind::Other),
            string_views(dirs@) == of_kind(all.take(i as int), kinds@.take(i as int), TargetKind::Directory),
        decreases names@.len() - i,
    {
        let name = names[i].clone();
        assert(all.take(i + 1).drop_last() =~= all.take(i as int));
        assert(kinds@.take(i + 1).drop_last() =~= kinds@.take(i as int));
        assert(all.take(i + 1).last() == name@);
        assert(kinds@.take(i + 1).last() == kinds@[i as int]);
        match kinds[i] {
            TargetKind::Missing => {
                assert(string_views(missing@.push(name)) =~= string_views(missing@).push(name@));
                missing.push(name);
            },
            TargetKind::Other => {
                assert(string_views(files@.push(name)) =~= string_views(files@).push(name@));
                files.push(name);
            },
            TargetKind::Directory => {
                assert(string_views(dirs@.push(name)) =~= string_views(dirs@).push(name@));
                dirs.push(name);
            },
        }
        i = i + 1;
    }
    assert(all.take(names@.len() as int) =~= all);
    assert(kinds@.take(names@.len() as int) =~= kinds@);
    Targets { missing, files, dirs }
}

/// Whether each listed directory gets a blank line and a `name:` header: when
/// anything else is shown besides one directory.
pub fn shows_headers(t: &Targets) -> (r: bool)
    ensures
        r == (t.files@.len() > 0 || t.dirs@.len() > 1 || t.missing@.len() > 0),
{
    !t.files.is_empty() || t.dirs.len() > 1 || !t.missing.is_empty()
}

/// The message for a named file that does not exist (its name trimmed).
pub open spec fn missing_message(name: Seq<char>) -> Seq<char> {
    "ls: cannot access '"@ + trimmed(name) + "': No such file or directory"@
}

/// The message for a named file that does not exist.
pub fn missing_file_message(name: &str) -> (r: String)
    ensures
        r@ == missing_message(name@),
{
    let t = trim(name);
    concat3("ls: cannot access '", t.as_str(), "': No such file or directory")
}

/// The sum of the numbers.
pub open spec fn sum(v: Seq<u64>) -> nat
    decreases v.len(),
{
    if v.len() == 0 {
        0
    } else {
        sum(v.drop_last()) + v.last() as nat
    }
}

/// The `total` line's number: the 512-byte blocks of the entries, in
/// kilobytes (rounded down).
pub fn block_total(blocks: &Vec<u64>) -> (r: u64)
    requires
        sum(blocks@) <= u64::MAX,
    ensures
        r == sum(blocks@) / 2,
{
    let mut total: u64 = 0;
    let mut i: usize = 0;
    while i < blocks.len()
        invariant
            i <= blocks@.len(),
            sum(blocks@) <= u64::MAX,
            total == sum(blocks@.take(i as int)),
        decreases blocks@.len() - i,
    {
        assert(blocks@.take(i + 1).drop_last() =~= blocks@.take(i as int));
        proof {
            lemma_sum_prefix(blocks@, i + 1);
        }
        total = total + blocks[i];
        i = i + 1;
    }
    assert(blocks@.take(blocks@.len() as int) =~= blocks@);
    total / 2
}

proof fn lemma_sum_prefix(v: Seq<u64>, n: int)
    requires
        0 <= n <= v.len(),
    ensures
        sum(v.take(n)) <= sum(v),
    decreases v.len(),
{
    if n < v.len() {
        assert(v.drop_last().take(n) =~= v.take(n));
        lemma_sum_prefix(v.drop_last(), n);
    } else {
        assert(v.take(n) =~= v);
    }
}

/// The short listing of a directory: the texts on one line, two spaces
/// apart, ending with a newline; nothing for no texts.
pub open spec fn short_listing(texts: Seq<Seq<char>>) -> Seq<char> {
    if texts.len() == 0 {
        Seq::empty()
    } else {
        crate::text::joined(texts, "  "@) + "\n"@
    }
}

/// The short listing of a directory.
pub fn short_layout(texts: &Vec<String>) -> (r: String)
    ensures
        r@ == short_listing(string_views(texts@)),
{
    let ghost v = string_views(texts@);
    let mut r = String::new();
    if texts.len() == 0 {
        return r;
    }
    let mut i: usize = 0;
    while i < texts.len()
        invariant
            i <= texts@.len(),
            v == string_views(texts@),
            r@ == crate::text::joined(v.take(i as int), "  "@),
        decreases texts@.len() - i,
    {
        assert(v.take(i + 1).drop_last() =~= v.take(i as int));
        assert(v.take(i + 1).last() == texts@[i as int]@);
        if i > 0 {
            r.append("  ");
        }
        r.append(texts[i].as_str());
        i = i + 1;
    }
    assert(v.take(texts@.len() as int) =~= v);
    r.append("\n");
    r
}


/// The entries `.` and `..` that `ls -a` lists first: the directory itself
/// (by its absolute path) and its parent (`..` where it has none).
pub fn dot_entries(absolute: &str, parent: Option<&str>) -> (r: Vec<DirEntry>)
    ensures
        r@.len() == 2,
        r@[0].path@ == absolute@,
        r@[0].display_name@ == "."@,
        r@[1].path@ == (match parent {
            Some(p) => p@,
            None => ".."@,
        }),
        r@[1].display_name@ == ".."@,
{
    let mut r: Vec<DirEntry> = Vec::new();
    r.push(DirEntry { path: String::from_str(absolute), display_name: String::from_str(".") });
    let up = match parent {
        Some(p) => String::from_str(p),
        None => String::from_str(".."),
    };
    r.push(DirEntry { path: up, display_name: String::from_str("..") });
    r
}

/// The name of the extended attribute that holds a POSIX access ACL.
pub open spec fn acl_attribute() -> Seq<char> {
    "system.posix_acl_access"@
}

/// Whether a file with these extended attributes has an access control
/// list.
pub fn has_acl_attribute(names: &Vec<String>) -> (r: bool)
    ensures
        r == exists|k: int| 0 <= k < names@.len() && #[trigger] names@[k]@ == acl_attribute(),
{
    let mut i: usize = 0;
    while i < names.len()
        invariant
            i <= names@.len(),
            forall|k: int| 0 <= k < i ==> #[trigger] names@[k]@ != acl_attribute(),
        decreases names@.len() - i,
    {
        if crate::text::same_text(names[i].as_str(), "system.posix_acl_access") {
            return true;
        }
        i = i + 1;
    }
    false
}


/// Every named file lands in exactly one of the three groups.
pub proof fn law_targets_partition(names: Seq<Seq<char>>, kinds: Seq<TargetKind>)
    requires
        names.len() == kinds.len(),
    ensures
        of_kind(names, kinds, TargetKind::Missing).len() + of_kind(names, kinds, TargetKind::Other).len()
            + of_kind(names, kinds, TargetKind::Directory).len() == names.len(),
    decreases names.len(),
{
    if names.len() > 0 {
        law_targets_partition(names.drop_last(), kinds.drop_last());
    }
}


/// A permutation of `0..n` holds every index below `n`.
proof fn lemma_permutation_covers(order: Seq<usize>, n: nat, y: usize)
    requires
        is_permutation(order, n),
        y < n,
    ensures
        exists|b: int| 0 <= b < order.len() && order[b] == y,
{
    let s = order.map_values(|x: usize| x as int);
    assert forall|i: int, j: int| 0 <= i < s.len() && 0 <= j < s.len() && i != j implies s[i] != s[j] by {
        if i < j {
            assert(order[i] != order[j]);
        } else {
            assert(order[j] != order[i]);
        }
    }
    assert(s.no_duplicates());
    s.unique_seq_to_set();
    let range = vstd::set_lib::set_int_range(0, n as int);
    vstd::set_lib::lemma_int_range(0, n as int);
    assert forall|v: int| s.to_set().contains(v) implies range.contains(v) by {
        let i = choose|i: int| 0 <= i < s.len() && s[i] == v;
        assert(order[i] < n);
    }
    vstd::seq_lib::seq_to_set_is_finite(s);
    vstd::set_lib::lemma_subset_equality(s.to_set(), range);
    assert(range.contains(y as int));
    assert(s.to_set().contains(y as int));
    let b = choose|b: int| 0 <= b < s.len() && s[b] == y as int;
    assert(order[b] == y);
}

proof fn first_difference(o1: Seq<usize>, o2: Seq<usize>, from: int) -> (a: int)
    requires
        o1.len() == o2.len(),
        0 <= from <= o1.len(),
        forall|q: int| 0 <= q < from ==> o1[q] == o2[q],
        exists|k: int| from <= k < o1.len() && o1[k] != o2[k],
    ensures
        from <= a < o1.len(),
        o1[a] != o2[a],
        forall|q: int| 0 <= q < a ==> o1[q] == o2[q],
    decreases o1.len() - from,
{
    if o1[from] != o2[from] {
        from
    } else {
        first_difference(o1, o2, from + 1)
    }
}

/// The listing order is determined by the names alone: two orders that both
/// sort the same keys stably are the same order. In particular a listing
/// already in listing order keeps its order.
pub proof fn law_stable_sort_unique(keys: Seq<Seq<char>>, o1: Seq<usize>, o2: Seq<usize>)
    requires
        is_stable_sort(keys, o1),
        is_stable_sort(keys, o2),
    ensures
        o1 == o2,
{
    if !(o1 =~= o2) {
        let n = keys.len();
        let a = first_difference(o1, o2, 0);
        let x = o1[a];
        let y = o2[a];
        lemma_permutation_covers(o1, n, y);
        let b = choose|b: int| 0 <= b < o1.len() && o1[b] == y;
        if b < a {
            assert(o2[b] == y);
            assert(o2[b] != o2[a]);
        }
        lemma_permutation_covers(o2, n, x);
        let c = choose|c: int| 0 <= c < o2.len() && o2[c] == x;
        if c < a {
            assert(o1[c] == x);
            assert(o1[c] != o1[a]);
        }
        assert(b > a && c > a);
        assert(!precedes(keys[y as int], keys[x as int]));
        assert(keys[x as int] == keys[y as int] ==> x < y);
        assert(!precedes(keys[x as int], keys[y as int]));
        assert(keys[y as int] == keys[x as int] ==> y < x);
        lemma_precedes_total(keys[x as int], keys[y as int]);
    }
}

} // verus!
