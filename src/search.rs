use vstd::prelude::*;

use crate::cli_input::{OptFlag, UserInput};
use crate::matcher::{contains_text, text_contains};
use crate::tokenizer::{parse_to_tokens, tokenize, views, Token, TokenView};

verus! {

/// Why the contents of a path could not be had.
#[derive(Clone, Copy, Debug, PartialEq, Eq, Structural)]
pub enum ReadError {
    PermissionDenied,
    NotFound,
    NotADirectory,
    IsADirectory,
    InvalidUnicodePath,
    Other,
}

/// A file to search: its path and its text, or why the text is missing.
pub struct FileEntry {
    pub path: String,
    pub contents: Result<String, ReadError>,
}

/// A file whose text could not be read, where that ends the search.
pub struct FileFailure {
    pub path: String,
    pub error: ReadError,
}

/// A searched file with its tokens.
pub struct FileData {
    pub file_path: String,
    pub file_tokens: Vec<Token>,
}

pub struct FileDataView {
    pub path: Seq<char>,
    pub tokens: Seq<TokenView>,
}

impl View for FileData {
    type V = FileDataView;

    open spec fn view(&self) -> FileDataView {
        FileDataView { path: self.file_path@, tokens: views(self.file_tokens@) }
    }
}

pub open spec fn file_views(files: Seq<FileData>) -> Seq<FileDataView> {
    files.map_values(|f: FileData| f@)
}

/// Some exclusion substring occurs in `path`.
pub open spec fn is_excluded(path: Seq<char>, exclude: Seq<Seq<char>>) -> bool {
    exists|k: int| 0 <= k < exclude.len() && text_contains(path, #[trigger] exclude[k])
}

/// True when no string of `exclude_paths` occurs in `path`.
pub fn filter_path(path: &String, exclude_paths: &Vec<String>) -> (r: bool)
    ensures
        r == !is_excluded(path@, exclude_paths@.map_values(|p: String| p@)),
{
    let ghost exclude = exclude_paths@.map_values(|p: String| p@);
    let mut i: usize = 0;
    while i < exclude_paths.len()
        invariant
            i <= exclude_paths@.len(),
            exclude == exclude_paths@.map_values(|p: String| p@),
            forall|k: int| 0 <= k < i ==> !text_contains(path@, #[trigger] exclude[k]),
        decreases exclude_paths@.len() - i,
    {
        if contains_text(path.as_str(), exclude_paths[i].as_str()) {
            assert(text_contains(path@, exclude[i as int]));
            return false;
        }
        i += 1;
    }
    true
}

impl UserInput {
    /// A directory is searched, rather than a single file.
    pub open spec fn dir_search(&self) -> bool {
        self.spec_has_opt_flag(OptFlag::Dir) || self.spec_has_opt_flag(OptFlag::Recursive)
    }
}

/// The entry is not excluded but its text could not be read.
pub open spec fn fails(e: FileEntry, exclude: Seq<Seq<char>>) -> bool {
    !is_excluded(e.path@, exclude) && e.contents is Err
}

/// The entry is not excluded and its text is there.
pub open spec fn is_searched(e: FileEntry, exclude: Seq<Seq<char>>) -> bool {
    !is_excluded(e.path@, exclude) && e.contents is Ok
}

/// The files searched among `entries`, in their order, each with its tokens.
pub open spec fn search_results(entries: Seq<FileEntry>, exclude: Seq<Seq<char>>, line_numbers: bool) -> Seq<FileDataView>
    decreases entries.len(),
{
    if entries.len() == 0 {
        Seq::empty()
    } else {
        let e = entries.last();
        let rest = search_results(entries.drop_last(), exclude, line_numbers);
        if is_searched(e, exclude) {
            rest.push(FileDataView { path: e.path@, tokens: tokenize(e.contents->Ok_0@, line_numbers) })
        } else {
            rest
        }
    }
}

/// Tokenizes each file of `entries` that no exclusion substring names. An
/// entry whose text is missing is skipped when a directory is searched; when
/// a single file is, the first such entry ends the search.
pub fn do_search(user_input: &UserInput, entries: Vec<FileEntry>) -> (r: Result<Vec<FileData>, FileFailure>)
    ensures
        match r {
            Ok(files) => {
                &&& user_input.dir_search() || forall|i: int|
                    0 <= i < entries@.len() ==> !fails(#[trigger] entries@[i], user_input.exclusions())
                &&& file_views(files@) == search_results(
                    entries@,
                    user_input.exclusions(),
                    user_input.spec_has_opt_flag(OptFlag::LineNumbers),
                )
            },
            Err(f) => {
                &&& !user_input.dir_search()
                &&& exists|i: int|
                    {
                        &&& 0 <= i < entries@.len()
                        &&& fails(#[trigger] entries@[i], user_input.exclusions())
                        &&& forall|j: int| 0 <= j < i ==> !fails(#[trigger] entries@[j], user_input.exclusions())
                        &&& f.path@ == entries@[i].path@
                        &&& f.error == entries@[i].contents->Err_0
                    }
            },
        },
{
    let dir_search = user_input.has_opt_flag(OptFlag::Dir) || user_input.has_opt_flag(
        OptFlag::Recursive,
    );
    let line_numbers = user_input.has_opt_flag(OptFlag::LineNumbers);
    let no_exclusions: Vec<String> = Vec::new();
    let exclude_paths = match &user_input.exclude_paths {
        Some(v) => v,
        None => &no_exclusions,
    };
    let ghost exclude = user_input.exclusions();
    assert(exclude =~= exclude_paths@.map_values(|p: String| p@));
    let ghost all = entries@;

    let mut file_search_data: Vec<FileData> = Vec::new();
    for entry in it: entries
        invariant
            all == it.seq(),
            exclude == exclude_paths@.map_values(|p: String| p@),
            exclude == user_input.exclusions(),
            dir_search == user_input.dir_search(),
            line_numbers == user_input.spec_has_opt_flag(OptFlag::LineNumbers),
            dir_search || forall|j: int| 0 <= j < it.index() ==> !fails(#[trigger] all[j], exclude),
            file_views(file_search_data@) == search_results(
                all.take(it.index() as int),
                exclude,
                line_numbers,
            ),
    {
        let ghost i = it.index() as int;
        let ghost e = entry;
        assert(all[i] == e);
        assert(all.take(i + 1).drop_last() =~= all.take(i));
        assert(all.take(i + 1).last() == e);
        let FileEntry { path, contents } = entry;
        if filter_path(&path, exclude_paths) {
            match contents {
                Ok(text) => {
                    let file_tokens = parse_to_tokens(text.as_str(), line_numbers);
                    let data = FileData { file_path: path, file_tokens };
                    file_search_data.push(data);
                    assert(file_views(file_search_data@) =~= file_views(
                        file_search_data@.drop_last(),
                    ).push(data@));
                },
                Err(error) => {
                    if !dir_search {
                        assert(fails(all[i], exclude));
                        return Err(FileFailure { path, error });
                    }
                },
            }
        }
    }
    assert(all.take(all.len() as int) =~= all);
    Ok(file_search_data)
}

} // verus!
