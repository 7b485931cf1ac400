use vstd::prelude::*;
use vstd::slice::slice_subrange;
use vstd::utf8::encode_utf8;

use crate::tokenizer::{char_slice_to_str, chars_of};

verus! {

/// Starts a flag or a group of flags: '-'.
pub const FLAG_PREFIX: u8 = 45;

// flags that take no argument
pub const OPT_FLAG_HELP: u8 = 104; // 'h'
pub const OPT_FLAG_DIR: u8 = 100; // 'd'
pub const OPT_FLAG_RECURSIVE: u8 = 114; // 'r'
pub const OPT_FLAG_LINE_NUMBERS: u8 = 110; // 'n'
pub const OPT_FLAG_QUIET: u8 = 113; // 'q'
pub const OPT_FLAG_IGNORE_CASE: u8 = 105; // 'i'

// flags that take the next argument
pub const FLAG_SEARCH: u8 = 115; // 's'
pub const FLAG_OUTPUT_TO_FILE: u8 = 102; // 'f'
pub const FLAG_PATH: u8 = 112; // 'p'
pub const FLAG_EXCLUDE_PATHS: u8 = 101; // 'e'

/// Separates the substrings given with the exclusion flag.
pub const EXCLUDE_PATHS_SEPARATOR: char = ',';

/// The flags that take no argument.
#[derive(Clone, Copy, Debug, PartialEq, Eq, Structural)]
pub enum OptFlag {
    Help,
    Dir,
    Recursive,
    LineNumbers,
    Quiet,
    IgnoreCase,
}

/// What the command line asks for.
pub struct UserInput {
    pub search_pattern: String,
    pub search_path: String,
    pub output_file_path: Option<String>,
    pub exclude_paths: Option<Vec<String>>,
    pub opt_flags: Vec<OptFlag>,
}

pub struct UserInputView {
    pub search_pattern: Seq<char>,
    pub search_path: Seq<char>,
    pub output_file_path: Option<Seq<char>>,
    pub exclude_paths: Option<Seq<Seq<char>>>,
    pub opt_flags: Seq<OptFlag>,
}

pub open spec fn string_views(v: Seq<String>) -> Seq<Seq<char>> {
    v.map_values(|s: String| s@)
}

impl View for UserInput {
    type V = UserInputView;

    open spec fn view(&self) -> UserInputView {
        UserInputView {
            search_pattern: self.search_pattern@,
            search_path: self.search_path@,
            output_file_path: match self.output_file_path {
                Some(p) => Some(p@),
                None => None,
            },
            exclude_paths: match self.exclude_paths {
                Some(v) => Some(string_views(v@)),
                None => None,
            },
            opt_flags: self.opt_flags@,
        }
    }
}

/// Why the command line could not be read.
pub enum CliError {
    /// A flag that takes an argument came last.
    MissingArgument(u8),
    /// An unknown letter followed a `-`.
    UnknownFlag(u8),
    /// An unknown letter stood in a group of flags such as `-rin`.
    UnknownOptFlag(u8),
    /// An argument that is neither a flag nor the argument of one.
    UnknownInput(String),
}

pub enum CliErrorView {
    MissingArgument(u8),
    UnknownFlag(u8),
    UnknownOptFlag(u8),
    UnknownInput(Seq<char>),
}

impl View for CliError {
    type V = CliErrorView;

    open spec fn view(&self) -> CliErrorView {
        match self {
            CliError::MissingArgument(c) => CliErrorView::MissingArgument(*c),
            CliError::UnknownFlag(c) => CliErrorView::UnknownFlag(*c),
            CliError::UnknownOptFlag(c) => CliErrorView::UnknownOptFlag(*c),
            CliError::UnknownInput(s) => CliErrorView::UnknownInput(s@),
        }
    }
}

pub open spec fn empty_input() -> UserInputView {
    UserInputView {
        search_pattern: Seq::empty(),
        search_path: Seq::empty(),
        output_file_path: None,
        exclude_paths: None,
        opt_flags: Seq::empty(),
    }
}

pub open spec fn is_opt_flag_byte(c: u8) -> bool {
    c == OPT_FLAG_HELP || c == OPT_FLAG_DIR || c == OPT_FLAG_RECURSIVE || c
        == OPT_FLAG_LINE_NUMBERS || c == OPT_FLAG_QUIET || c == OPT_FLAG_IGNORE_CASE
}

pub open spec fn is_arg_flag_byte(c: u8) -> bool {
    c == FLAG_SEARCH || c == FLAG_OUTPUT_TO_FILE || c == FLAG_PATH || c == FLAG_EXCLUDE_PATHS
}

pub open spec fn opt_flag_of(c: u8) -> OptFlag {
    if c == OPT_FLAG_HELP {
        OptFlag::Help
    } else if c == OPT_FLAG_DIR {
        OptFlag::Dir
    } else if c == OPT_FLAG_RECURSIVE {
        OptFlag::Recursive
    } else if c == OPT_FLAG_LINE_NUMBERS {
        OptFlag::LineNumbers
    } else if c == OPT_FLAG_QUIET {
        OptFlag::Quiet
    } else {
        OptFlag::IgnoreCase
    }
}

/// The pieces of `s` between the occurrences of `sep`, empty ones included.
pub open spec fn pieces(s: Seq<char>, sep: char) -> Seq<Seq<char>>
    decreases s.len(),
{
    if s.len() == 0 {
        seq![Seq::empty()]
    } else {
        let p = pieces(s.drop_last(), sep);
        if s.last() == sep {
            p.push(Seq::empty())
        } else {
            p.update(p.len() - 1, p.last().push(s.last()))
        }
    }
}

/// The non-empty pieces of `s` between the occurrences of `sep`.
pub open spec fn split_nonempty(s: Seq<char>, sep: char) -> Seq<Seq<char>> {
    pieces(s, sep).filter(|p: Seq<char>| p.len() > 0)
}

/// The exclusion list that the argument `arg` gives: none if it names no
/// substring.
pub open spec fn exclusion_list(arg: Seq<char>) -> Option<Seq<Seq<char>>> {
    let parts = split_nonempty(arg, EXCLUDE_PATHS_SEPARATOR);
    if parts.len() == 0 {
        None
    } else {
        Some(parts)
    }
}

/// `u` after the flag `flag` was given the argument `arg`.
pub open spec fn with_argument(u: UserInputView, flag: u8, arg: Seq<char>) -> UserInputView {
    if flag == FLAG_SEARCH {
        UserInputView { search_pattern: arg, ..u }
    } else if flag == FLAG_PATH {
        UserInputView { search_path: arg, ..u }
    } else if flag == FLAG_OUTPUT_TO_FILE {
        UserInputView { output_file_path: Some(arg), ..u }
    } else {
        UserInputView { exclude_paths: exclusion_list(arg), ..u }
    }
}

/// The flags that a group such as `rin` stands for, or its first unknown
/// letter.
pub open spec fn group_flags(b: Seq<u8>) -> Result<Seq<OptFlag>, u8>
    decreases b.len(),
{
    if b.len() == 0 {
        Ok(Seq::empty())
    } else if !is_opt_flag_byte(b[0]) {
        Err(b[0])
    } else {
        match group_flags(b.drop_first()) {
            Ok(f) => Ok(seq![opt_flag_of(b[0])] + f),
            Err(e) => Err(e),
        }
    }
}

/// Reading the command line `args` (their bytes in `bytes`) into `u`:
/// `rest` holds the unread bytes of argument `arg`, `on_flag` tells whether a
/// `-` was read in it, and `next` is the first argument not yet read.
///
/// A `-` in an argument longer than two bytes makes all of it after its first
/// byte a group of flags without argument. Elsewhere each byte is a flag:
/// one without argument is recorded, one with an argument takes the next
/// argument whole.
pub open spec fn parse_from(
    bytes: Seq<Seq<u8>>,
    args: Seq<Seq<char>>,
    arg: int,
    rest: Seq<u8>,
    on_flag: bool,
    next: int,
    u: UserInputView,
) -> Result<UserInputView, CliErrorView>
    decreases bytes.len() - next, rest.len(),
{
    if rest.len() == 0 {
        if 0 <= next < bytes.len() {
            parse_from(bytes, args, next, bytes[next], false, next + 1, u)
        } else {
            Ok(u)
        }
    } else {
        let c = rest[0];
        if c == FLAG_PREFIX {
            if bytes[arg].len() > 2 {
                match group_flags(bytes[arg].drop_first()) {
                    Ok(flags) => parse_from(
                        bytes,
                        args,
                        arg,
                        Seq::empty(),
                        on_flag,
                        next,
                        UserInputView { opt_flags: u.opt_flags + flags, ..u },
                    ),
                    Err(e) => Err(CliErrorView::UnknownOptFlag(e)),
                }
            } else {
                parse_from(bytes, args, arg, rest.drop_first(), true, next, u)
            }
        } else if is_opt_flag_byte(c) {
            parse_from(
                bytes,
                args,
                arg,
                rest.drop_first(),
                on_flag,
                next,
                UserInputView { opt_flags: u.opt_flags.push(opt_flag_of(c)), ..u },
            )
        } else if is_arg_flag_byte(c) {
            if 0 <= next < bytes.len() {
                parse_from(
                    bytes,
                    args,
                    arg,
                    rest.drop_first(),
                    on_flag,
                    next + 1,
                    with_argument(u, c, args[next]),
                )
            } else {
                Err(CliErrorView::MissingArgument(c))
            }
        } else if on_flag {
            Err(CliErrorView::UnknownFlag(c))
        } else {
            Err(CliErrorView::UnknownInput(args[arg]))
        }
    }
}

/// What the command line `args` asks for; the first argument, the program's
/// path, is passed over.
pub open spec fn parse_command_line(args: Seq<Seq<char>>) -> Result<UserInputView, CliErrorView> {
    parse_from(
        args.map_values(|a: Seq<char>| encode_utf8(a)),
        args,
        0,
        Seq::empty(),
        false,
        1,
        empty_input(),
    )
}

impl UserInput {
    pub open spec fn spec_has_opt_flag(&self, flag: OptFlag) -> bool {
        self.opt_flags@.contains(flag)
    }

    /// The exclusion substrings, none when no list was given.
    pub open spec fn exclusions(&self) -> Seq<Seq<char>> {
        match self.exclude_paths {
            Some(v) => string_views(v@),
            None => Seq::empty(),
        }
    }

    /// Input with nothing set: empty pattern and path, no output file, no
    /// exclusions, no flags.
    pub fn new_empty() -> (r: Self)
        ensures
            r@ == empty_input(),
    {
        let r = Self {
            search_pattern: String::new(),
            search_path: String::new(),
            output_file_path: None,
            exclude_paths: None,
            opt_flags: Vec::new(),
        };
        assert(r@.search_pattern =~= Seq::<char>::empty());
        assert(r@.search_path =~= Seq::<char>::empty());
        assert(r@.opt_flags =~= Seq::<OptFlag>::empty());
        r
    }

    pub fn has_opt_flag(&self, flag: OptFlag) -> (r: bool)
        ensures
            r == self.spec_has_opt_flag(flag),
    {
        let mut i: usize = 0;
        while i < self.opt_flags.len()
            invariant
                i <= self.opt_flags@.len(),
                forall|k: int| 0 <= k < i ==> self.opt_flags@[k] != flag,
            decreases self.opt_flags@.len() - i,
        {
            if self.opt_flags[i] == flag {
                return true;
            }
            i += 1;
        }
        false
    }
}

pub fn is_opt_flag(opt_flag: u8) -> (r: bool)
    ensures
        r == is_opt_flag_byte(opt_flag),
{
    opt_flag == OPT_FLAG_HELP || opt_flag == OPT_FLAG_DIR || opt_flag == OPT_FLAG_RECURSIVE
        || opt_flag == OPT_FLAG_LINE_NUMBERS || opt_flag == OPT_FLAG_QUIET || opt_flag
        == OPT_FLAG_IGNORE_CASE
}

pub fn is_non_opt_flag(flag: u8) -> (r: bool)
    ensures
        r == is_arg_flag_byte(flag),
{
    flag == FLAG_SEARCH || flag == FLAG_PATH || flag == FLAG_OUTPUT_TO_FILE || flag
        == FLAG_EXCLUDE_PATHS
}

pub fn match_opt_flag(opt_flag: u8) -> (r: OptFlag)
    requires
        is_opt_flag_byte(opt_flag),
    ensures
        r == opt_flag_of(opt_flag),
{
    if opt_flag == OPT_FLAG_HELP {
        OptFlag::Help
    } else if opt_flag == OPT_FLAG_DIR {
        OptFlag::Dir
    } else if opt_flag == OPT_FLAG_RECURSIVE {
        OptFlag::Recursive
    } else if opt_flag == OPT_FLAG_LINE_NUMBERS {
        OptFlag::LineNumbers
    } else if opt_flag == OPT_FLAG_QUIET {
        OptFlag::Quiet
    } else {
        OptFlag::IgnoreCase
    }
}

/// Splits `s` at each `splitter`, leaving out empty pieces.
pub fn split_str_into_vec(s: &String, splitter: char) -> (r: Vec<String>)
    ensures
        string_views(r@) == split_nonempty(s@, splitter),
{
    let ghost t = s@;
    let char_vec = chars_of(s.as_str());
    let mut result: Vec<String> = Vec::new();
    let mut curr_slice_start: usize = 0;
    let mut ind: usize = 0;
    while ind < char_vec.len()
        invariant
            char_vec@ == t,
            curr_slice_start <= ind <= t.len(),
            pieces(t.take(ind as int), splitter).last() == t.subrange(curr_slice_start as int, ind as int),
            string_views(result@) == pieces(t.take(ind as int), splitter).drop_last().filter(
                |p: Seq<char>| p.len() > 0,
            ),
        decreases t.len() - ind,
    {
        let ghost p = pieces(t.take(ind as int), splitter);
        proof {
            lemma_pieces_nonempty(t.take(ind as int), splitter);
        }
        assert(t.take(ind + 1).drop_last() =~= t.take(ind as int));
        if char_vec[ind] == splitter {
            proof {
                reveal(Seq::filter);
                assert(p.push(Seq::empty()).drop_last() =~= p);
            }
            if ind > curr_slice_start {
                let part = char_slice_to_str(
                    slice_subrange(char_vec.as_slice(), curr_slice_start, ind),
                );
                result.push(part);
                assert(string_views(result@) =~= string_views(result@.drop_last()).push(part@));
            }
            curr_slice_start = ind + 1;
            proof {
                assert(t.subrange(curr_slice_start as int, ind + 1) =~= Seq::<char>::empty());
            }
        } else {
            proof {
                assert(p.update(p.len() - 1, p.last().push(t[ind as int])).drop_last() =~= p.drop_last());
                assert(t.subrange(curr_slice_start as int, ind + 1) =~= t.subrange(
                    curr_slice_start as int,
                    ind as int,
                ).push(t[ind as int]));
            }
        }
        ind += 1;
    }
    if ind > curr_slice_start {
        let part = char_slice_to_str(slice_subrange(char_vec.as_slice(), curr_slice_start, ind));
        result.push(part);
        assert(string_views(result@) =~= string_views(result@.drop_last()).push(part@));
    }
    proof {
        reveal(Seq::filter);
        assert(t.take(ind as int) =~= t);
        lemma_pieces_nonempty(t, splitter);
    }
    result
}

proof fn lemma_pieces_nonempty(s: Seq<char>, sep: char)
    ensures
        pieces(s, sep).len() > 0,
    decreases s.len(),
{
    if s.len() > 0 {
        lemma_pieces_nonempty(s.drop_last(), sep);
    }
}

/// The substrings that `exclude_paths` lists between `splitter`s; none when
/// it lists none.
pub fn parse_exclude_paths(exclude_paths: &String, splitter: char) -> (r: Option<Vec<String>>)
    ensures
        match r {
            Some(v) => string_views(v@) == split_nonempty(exclude_paths@, splitter)
                && v@.len() > 0,
            None => split_nonempty(exclude_paths@, splitter).len() == 0,
        },
{
    let exclude_paths = split_str_into_vec(exclude_paths, splitter);
    if exclude_paths.len() == 0 {
        None
    } else {
        Some(exclude_paths)
    }
}

/// Records `argument` as the value of the flag `flag`.
pub fn match_non_opt_flag(flag: u8, argument: String, user_input: &mut UserInput)
    requires
        is_arg_flag_byte(flag),
    ensures
        final(user_input)@ == with_argument(old(user_input)@, flag, argument@),
{
    if flag == FLAG_SEARCH {
        user_input.search_pattern = argument;
    } else if flag == FLAG_PATH {
        user_input.search_path = argument;
    } else if flag == FLAG_OUTPUT_TO_FILE {
        user_input.output_file_path = Some(argument);
    } else {
        user_input.exclude_paths = parse_exclude_paths(&argument, EXCLUDE_PATHS_SEPARATOR);
    }
}

/// What the command line reading from `r` is, as its view.
pub open spec fn parse_view(r: Result<UserInput, CliError>) -> Result<UserInputView, CliErrorView> {
    match r {
        Ok(u) => Ok(u@),
        Err(e) => Err(e@),
    }
}

/// The flags that a group such as `rin` stands for.
pub fn parse_mult_opt_flags(flags: &[u8]) -> (r: Result<Vec<OptFlag>, CliError>)
    ensures
        match r {
            Ok(v) => group_flags(flags@) == Ok::<Seq<OptFlag>, u8>(v@),
            Err(e) => group_flags(flags@) is Err && e@ == CliErrorView::UnknownOptFlag(
                group_flags(flags@)->Err_0,
            ),
        },
{
    let mut flags_res: Vec<OptFlag> = Vec::new();
    let mut i: usize = 0;
    assert(flags@.skip(0) =~= flags@);
    proof {
        match group_flags(flags@) {
            Ok(f) => {
                assert(flags_res@ + f =~= f);
            },
            Err(e) => {},
        }
    }
    while i < flags.len()
        invariant
            i <= flags@.len(),
            group_flags(flags@) == match group_flags(flags@.skip(i as int)) {
                Ok(f) => Ok(flags_res@ + f),
                Err(e) => Err(e),
            },
        decreases flags@.len() - i,
    {
        let c = flags[i];
        let ghost rest = flags@.skip(i as int);
        assert(rest.drop_first() =~= flags@.skip(i + 1));
        assert(rest[0] == c);
        if is_opt_flag(c) {
            let ghost before = flags_res@;
            flags_res.push(match_opt_flag(c));
            proof {
                match group_flags(flags@.skip(i + 1)) {
                    Ok(f) => {
                        assert(before + (seq![opt_flag_of(c)] + f) =~= flags_res@ + f);
                    },
                    Err(e) => {},
                }
            }
        } else {
            return Err(CliError::UnknownOptFlag(c));
        }
        i += 1;
    }
    assert(flags@.skip(i as int) =~= Seq::<u8>::empty());
    assert(flags_res@ + Seq::<OptFlag>::empty() =~= flags_res@);
    Ok(flags_res)
}

/// Reads the command line `input`, whose first item is the program's path.
pub fn parse_user_input_cli(input: Vec<String>) -> (r: Result<UserInput, CliError>)
    ensures
        parse_view(r) == parse_command_line(string_views(input@)),
{
    let ghost args = string_views(input@);
    let ghost bytes = args.map_values(|a: Seq<char>| encode_utf8(a));
    let ghost target = parse_command_line(args);
    let mut user_input = UserInput::new_empty();
    let mut next: usize = 1;
    while next < input.len()
        invariant
            args == string_views(input@),
            bytes == args.map_values(|a: Seq<char>| encode_utf8(a)),
            target == parse_command_line(args),
            1 <= next,
            parse_from(bytes, args, 0, Seq::empty(), false, next as int, user_input@) == target,
        decreases input@.len() - next,
    {
        let arg = next;
        next += 1;
        let curr = input[arg].as_str();
        let b = curr.as_bytes();
        assert(b@ == bytes[arg as int]);
        let mut is_on_flag = false;
        let mut j: usize = 0;
        assert(b@.skip(0) =~= b@);
        while j < b.len()
            invariant_except_break
                parse_from(
                    bytes,
                    args,
                    arg as int,
                    b@.skip(j as int),
                    is_on_flag,
                    next as int,
                    user_input@,
                ) == target,
            invariant
                args == string_views(input@),
                bytes == args.map_values(|a: Seq<char>| encode_utf8(a)),
                target == parse_command_line(args),
                b@ == bytes[arg as int],
                arg < next <= input@.len(),
                j <= b@.len(),
            ensures
                next <= input@.len(),
                parse_from(
                    bytes,
                    args,
                    arg as int,
                    Seq::empty(),
                    is_on_flag,
                    next as int,
                    user_input@,
                ) == target,
            decreases b@.len() - j,
        {
            let c = b[j];
            let ghost rest = b@.skip(j as int);
            let ghost u0 = user_input@;
            assert(rest.drop_first() =~= b@.skip(j + 1));
            assert(rest[0] == c);
            assert(args[arg as int] == input@[arg as int]@);
            assert(bytes.len() == input@.len());
            assert(bytes[arg as int].len() == b@.len());
            if c == FLAG_PREFIX {
                if b.len() > 2 {
                    let group = slice_subrange(b, 1, b.len());
                    assert(group@ =~= bytes[arg as int].drop_first());
                    match parse_mult_opt_flags(group) {
                        Ok(flags) => {
                            let ghost flags_view = flags@;
                            let mut flags = flags;
                            user_input.opt_flags.append(&mut flags);
                            assert(user_input@ == UserInputView {
                                opt_flags: u0.opt_flags + flags_view,
                                ..u0
                            });
                            break ;
                        },
                        Err(e) => {
                            return Err(e);
                        },
                    }
                } else {
                    is_on_flag = true;
                }
            } else if is_opt_flag(c) {
                user_input.opt_flags.push(match_opt_flag(c));
            } else if is_non_opt_flag(c) {
                if next < input.len() {
                    assert(args[next as int] == input@[next as int]@);
                    let argument = input[next].clone();
                    next += 1;
                    match_non_opt_flag(c, argument, &mut user_input);
                } else {
                    return Err(CliError::MissingArgument(c));
                }
            } else if is_on_flag {
                return Err(CliError::UnknownFlag(c));
            } else {
                return Err(CliError::UnknownInput(input[arg].clone()));
            }
            j += 1;
        }
        assert(parse_from(bytes, args, arg as int, Seq::empty(), is_on_flag, next as int, user_input@)
            == parse_from(bytes, args, 0, Seq::empty(), false, next as int, user_input@));
    }
    Ok(user_input)
}

} // verus!
