//! Everything between the text of a PDF and the speech: the chunks to speak,
//! and the text that is written to files on the way.

use vstd::prelude::*;

use crate::book;
use crate::book::PageChunk;
use crate::clean;
use crate::errors::Failure;
use crate::mode::ModeSettings;
use crate::output::AppPaths;
use crate::paths;
use crate::text;
use crate::tts;

verus! {

broadcast use vstd::string::group_string_axioms;

/// A file of text.
pub struct TextFile {
    pub path: String,
    pub text: String,
}

/// The path and the text of a file.
pub struct FileText {
    pub path: Seq<char>,
    pub text: Seq<char>,
}

impl View for TextFile {
    type V = FileText;

    open spec fn view(&self) -> FileText {
        FileText { path: self.path@, text: self.text@ }
    }
}

/// What a paper is made ready for speech with.
pub struct Prepared {
    pub page_count: usize,
    /// The files that hold the text of the whole paper.
    pub paper_files: Vec<TextFile>,
    /// The chunks to speak. There are none where nothing is left to speak.
    pub chunks: Result<Vec<PageChunk>, Failure>,
    /// The files that hold the text of the chunks.
    pub chunk_files: Vec<TextFile>,
}

/// What the files of a list hold.
pub open spec fn file_texts(list: Seq<TextFile>) -> Seq<FileText> {
    list.map_values(|file: TextFile| file@)
}

/// The files for the text of a paper: the text as it was found, and the cleaned
/// text. Only a mode that writes text has them.
pub open spec fn paper_files(
    settings: ModeSettings,
    raw_path: Seq<char>,
    cleaned_path: Seq<char>,
    pages: Seq<Seq<char>>,
) -> Seq<FileText> {
    if settings.write_debug_text {
        seq![
            FileText { path: raw_path, text: clean::joined(pages, "\n\n"@) },
            FileText {
                path: cleaned_path,
                text: clean::joined(
                    book::pages_with_text(book::pages_cleaned(pages)),
                    "\n\n"@,
                ),
            },
        ]
    } else {
        Seq::empty()
    }
}

/// The files for the text of the chunks, one for each, numbered from 1. Only a mode that writes
/// text has them.
pub open spec fn chunk_files(
    settings: ModeSettings,
    chunks_dir: Seq<char>,
    chunks: Seq<book::PageText>,
) -> Seq<FileText> {
    if settings.write_debug_text {
        Seq::new(
            chunks.len(),
            |i: int|
                FileText {
                    path: paths::joined(chunks_dir, tts::chunk_name(i + 1, ".txt"@)),
                    text: chunks[i].text,
                },
        )
    } else {
        Seq::empty()
    }
}

/// The chunks of a paper.
pub open spec fn paper_chunks(settings: ModeSettings, pages: Seq<Seq<char>>) -> Seq<book::PageText> {
    book::book_chunks(book::pages_cleaned(pages), settings.chunk_chars as nat)
}

fn list_chunk_files(settings: ModeSettings, chunks_dir: &str, chunks: &Vec<PageChunk>) -> (r: Vec<
    TextFile,
>)
    ensures
        file_texts(r@) == chunk_files(settings, chunks_dir@, book::page_texts(chunks@)),
{
    let ghost all = chunk_files(settings, chunks_dir@, book::page_texts(chunks@));
    let mut files: Vec<TextFile> = Vec::new();
    if !settings.write_debug_text {
        proof {
            assert(file_texts(files@) =~= all);
        }
        return files;
    }
    let mut i: usize = 0;
    while i < chunks.len()
        invariant
            settings.write_debug_text,
            all == chunk_files(settings, chunks_dir@, book::page_texts(chunks@)),
            i <= chunks@.len(),
            file_texts(files@) == all.take(i as int),
        decreases chunks@.len() - i,
    {
        let ghost before = file_texts(files@);
        let file = TextFile {
            path: tts::chunk_path(chunks_dir, i + 1, ".txt"),
            text: chunks[i].text.as_str().to_owned(),
        };
        proof {
            assert(all[i as int] == file@);
        }
        files.push(file);
        proof {
            assert(file_texts(files@) =~= before.push(all[i as int]));
            assert(all.take(i + 1) =~= all.take(i as int).push(all[i as int]));
        }
        i += 1;
    }
    proof {
        assert(all.take(i as int) =~= all);
    }
    files
}

/// Makes a paper ready for speech: the pages must hold text, they are cleaned,
/// and they are split into chunks.
pub fn prepare(pages: Vec<String>, settings: ModeSettings, app_paths: &AppPaths) -> (r: Result<
    Prepared,
    Failure,
>)
    ensures
        match r {
            Ok(prepared) => {
                let all = text::contents(pages@);
                &&& book::text_total(all) >= 300
                &&& prepared.page_count == pages@.len()
                &&& file_texts(prepared.paper_files@) == paper_files(
                    settings,
                    app_paths.raw_text_path@,
                    app_paths.cleaned_text_path@,
                    all,
                )
                &&& file_texts(prepared.chunk_files@) == chunk_files(
                    settings,
                    app_paths.chunks_dir@,
                    paper_chunks(settings, all),
                )
                &&& match prepared.chunks {
                    Ok(chunks) => {
                        &&& chunks@.len() > 0
                        &&& book::page_texts(chunks@) == paper_chunks(settings, all)
                    },
                    Err(Failure::NoChunks) => paper_chunks(settings, all).len() == 0,
                    Err(_) => false,
                }
            },
            Err(Failure::NoText) => book::text_total(text::contents(pages@)) < 300,
            Err(_) => false,
        },
{
    let pages = match book::require_text(pages) {
        Ok(pages) => pages,
        Err(error) => {
            return Err(error);
        },
    };
    let ghost all = text::contents(pages@);
    let cleaned_pages = book::clean_pages(&pages);
    let mut paper: Vec<TextFile> = Vec::new();
    if settings.write_debug_text {
        paper.push(
            TextFile {
                path: app_paths.raw_text_path.as_str().to_owned(),
                text: book::raw_text(&pages),
            },
        );
        paper.push(
            TextFile {
                path: app_paths.cleaned_text_path.as_str().to_owned(),
                text: book::cleaned_text(&cleaned_pages),
            },
        );
    }
    proof {
        assert(file_texts(paper@) =~= paper_files(
            settings,
            app_paths.raw_text_path@,
            app_paths.cleaned_text_path@,
            all,
        ));
    }
    let chunks = book::page_chunks(&cleaned_pages, settings.chunk_chars);
    let files = match &chunks {
        Ok(list) => list_chunk_files(settings, app_paths.chunks_dir.as_str(), list),
        Err(_) => {
            let none: Vec<TextFile> = Vec::new();
            proof {
                assert(file_texts(none@) =~= chunk_files(
                    settings,
                    app_paths.chunks_dir@,
                    paper_chunks(settings, all),
                ));
            }
            none
        },
    };
    Ok(Prepared { page_count: pages.len(), paper_files: paper, chunks, chunk_files: files })
}

/// No two chunks are written to the same file.
pub proof fn law_chunk_files_are_distinct(
    settings: ModeSettings,
    chunks_dir: Seq<char>,
    chunks: Seq<book::PageText>,
    i: int,
    j: int,
)
    requires
        0 <= i < chunk_files(settings, chunks_dir, chunks).len(),
        0 <= j < chunk_files(settings, chunks_dir, chunks).len(),
        i != j,
    ensures
        chunk_files(settings, chunks_dir, chunks)[i].path != chunk_files(
            settings,
            chunks_dir,
            chunks,
        )[j].path,
{
    tts::law_chunks_have_files_of_their_own(chunks_dir, (i + 1) as nat, (j + 1) as nat, ".txt"@);
}

} // verus!
