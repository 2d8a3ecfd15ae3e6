//! The decisions of the command line: which options go together, which mode an
//! input is converted in, and how a run over the `.fig` files of an archive
//! proceeds and ends. Reading, writing and converting files is the caller's.

use vstd::prelude::*;

use crate::json::text_equal;
use crate::schema::node_filter::{rest_form, NodeId};
use crate::text::{decimal_digits, push_decimal};

verus! {

/// How an input is converted.
#[derive(Debug, Clone, Copy, PartialEq, Eq, Structural)]
pub enum Mode {
    /// A single `.fig` file, written to the output file or standard output.
    Single,
    /// A ZIP archive, extracted to a directory; each `.fig` in it is converted
    /// next to itself.
    Archive,
}

/// A refusal of the command line.
#[derive(Debug, Clone, Copy, PartialEq, Eq, Structural)]
pub enum CliError {
    /// `--raw` together with `--node`.
    RawWithNode,
    /// A ZIP archive without an extraction directory.
    MissingExtractDir,
    /// A ZIP archive together with `-o`/`--output`.
    OutputWithExtractDir,
    /// An archive without any `.fig` file.
    NoFigFiles,
    /// The target node is in none of the archive's `.fig` files.
    NodeNotInArchive(NodeId),
}

/// The text that explains a refusal.
pub open spec fn cli_error_message(e: CliError) -> Seq<char> {
    match e {
        CliError::RawWithNode => "--raw cannot be combined with --node (raw output is never node-scoped)"@,
        CliError::MissingExtractDir => "ZIP files require an extraction directory as second argument"@,
        CliError::OutputWithExtractDir => "Cannot use -o/--output flag with extraction directory (ZIP mode)"@,
        CliError::NoFigFiles => "No .fig files found in ZIP archive"@,
        CliError::NodeNotInArchive(id) => "node "@ + rest_form(id)
            + " not found in any .fig in the archive"@,
    }
}

impl CliError {
    /// The text that explains the refusal.
    pub fn message(&self) -> (r: String)
        ensures
            r@ == cli_error_message(*self),
    {
        match self {
            CliError::RawWithNode => String::from_str(
                "--raw cannot be combined with --node (raw output is never node-scoped)",
            ),
            CliError::MissingExtractDir => String::from_str(
                "ZIP files require an extraction directory as second argument",
            ),
            CliError::OutputWithExtractDir => String::from_str(
                "Cannot use -o/--output flag with extraction directory (ZIP mode)",
            ),
            CliError::NoFigFiles => String::from_str("No .fig files found in ZIP archive"),
            CliError::NodeNotInArchive(id) => {
                let mut m = String::from_str("node ");
                let rendered = id.to_string();
                m.append(rendered.as_str());
                m.append(" not found in any .fig in the archive");
                m
            },
        }
    }
}

/// Raw output is never scoped to a node, so `--raw` and `--node` exclude each
/// other. This is decided before any input is read.
pub fn check_target_options(raw: bool, has_node: bool) -> (r: Result<(), CliError>)
    ensures
        r == (if raw && has_node {
            Err::<(), CliError>(CliError::RawWithNode)
        } else {
            Ok(())
        }),
{
    if raw && has_node {
        Err(CliError::RawWithNode)
    } else {
        Ok(())
    }
}

/// The mode for an input, once it is known whether it is a ZIP archive: an
/// archive needs an extraction directory and takes no output file.
pub fn choose_mode(is_zip: bool, has_extract_dir: bool, has_output: bool) -> (r: Result<
    Mode,
    CliError,
>)
    ensures
        r == (if !is_zip {
            Ok::<Mode, CliError>(Mode::Single)
        } else if !has_extract_dir {
            Err(CliError::MissingExtractDir)
        } else if has_output {
            Err(CliError::OutputWithExtractDir)
        } else {
            Ok(Mode::Archive)
        }),
{
    if !is_zip {
        Ok(Mode::Single)
    } else if !has_extract_dir {
        Err(CliError::MissingExtractDir)
    } else if has_output {
        Err(CliError::OutputWithExtractDir)
    } else {
        Ok(Mode::Archive)
    }
}

/// What becomes of an entry met while searching the extracted archive for
/// `.fig` files.
#[derive(Debug, Clone, Copy, PartialEq, Eq, Structural)]
pub enum EntryKind {
    /// A directory: searched in turn, whatever its name.
    Search,
    /// A file whose extension is exactly `fig`: converted.
    Collect,
    /// Any other file: left alone.
    Ignore,
}

/// Sorts an entry of the extracted archive by whether it is a directory and by
/// its extension (as `Path::extension` gives it, where it is valid UTF-8).
pub fn classify_entry(is_dir: bool, extension: Option<&str>) -> (r: EntryKind)
    ensures
        r == (if is_dir {
            EntryKind::Search
        } else if extension matches Some(e) && e@ == "fig"@ {
            EntryKind::Collect
        } else {
            EntryKind::Ignore
        }),
{
    if is_dir {
        EntryKind::Search
    } else {
        match extension {
            Some(e) => if text_equal(e, "fig") {
                EntryKind::Collect
            } else {
                EntryKind::Ignore
            },
            None => EntryKind::Ignore,
        }
    }
}

/// How the conversion of one `.fig` file of an archive came out.
#[derive(Debug, Clone, Copy, PartialEq, Eq, Structural)]
pub enum Outcome {
    /// The file was converted.
    Converted,
    /// The file holds no node that matches the target.
    NodeNotFound,
    /// The conversion failed for another reason.
    Failed,
}

/// What to do with a file after its conversion.
#[derive(Debug, Clone, Copy, PartialEq, Eq, Structural)]
pub enum Step {
    /// Write its JSON (and, where asked, its raw JSON) next to it.
    Write,
    /// Leave it: it does not hold the target node.
    Skip,
    /// Stop the run with the conversion's error.
    Abort,
}

/// The progress of a run over the `.fig` files of an archive.
pub struct ArchiveRun {
    file_count: usize,
    seen: usize,
    converted: usize,
    target: Option<NodeId>,
}

/// The summary of a finished run, as the verbose output reports it.
pub open spec fn summary_text(converted: nat, skipped: nat, targeted: bool) -> Seq<char> {
    if targeted && skipped > 0 {
        "Done! Converted "@ + decimal_digits(converted) + " file(s); skipped "@ + decimal_digits(
            skipped,
        ) + " without the node"@
    } else {
        "Done! Converted "@ + decimal_digits(converted) + " file(s)"@
    }
}

/// With a target, every skipped file is reported: a summary of `skipped >= 1`
/// files names their number; with no file skipped, or no target, it names
/// only the converted ones.
pub proof fn lemma_summary_reports_skipped(converted: nat, skipped: nat, targeted: bool)
    ensures
        targeted && skipped >= 1 ==> summary_text(converted, skipped, targeted) == "Done! Converted "@
            + decimal_digits(converted) + " file(s); skipped "@ + decimal_digits(skipped)
            + " without the node"@,
        !targeted || skipped == 0 ==> summary_text(converted, skipped, targeted)
            == "Done! Converted "@ + decimal_digits(converted) + " file(s)"@,
{
}

impl ArchiveRun {
    /// The run is consistent: no more files seen than there are, and no more
    /// converted than seen.
    pub closed spec fn wf(&self) -> bool {
        self.converted <= self.seen <= self.file_count
    }

    /// The number of `.fig` files in the archive.
    pub closed spec fn spec_file_count(&self) -> nat {
        self.file_count as nat
    }

    /// The number of files whose conversion has been reported.
    pub closed spec fn spec_seen(&self) -> nat {
        self.seen as nat
    }

    /// The number of files converted so far.
    pub closed spec fn spec_converted(&self) -> nat {
        self.converted as nat
    }

    /// The node the run is scoped to, if any.
    pub closed spec fn spec_target(&self) -> Option<NodeId> {
        self.target
    }

    /// In a consistent run, no more files are converted than seen, and no more
    /// seen than there are.
    pub proof fn lemma_counts(&self)
        requires
            self.wf(),
        ensures
            self.spec_converted() <= self.spec_seen() <= self.spec_file_count(),
    {
    }

    /// Starts a run over `file_count` files, scoped to `target` if given; an
    /// archive without any `.fig` file is refused.
    pub fn start(file_count: usize, target: Option<NodeId>) -> (r: Result<ArchiveRun, CliError>)
        ensures
            file_count == 0 ==> r == Err::<ArchiveRun, CliError>(CliError::NoFigFiles),
            file_count > 0 ==> (r matches Ok(run) && {
                &&& run.wf()
                &&& run.spec_file_count() == file_count
                &&& run.spec_seen() == 0
                &&& run.spec_converted() == 0
                &&& run.spec_target() == target
            }),
    {
        if file_count == 0 {
            Err(CliError::NoFigFiles)
        } else {
            Ok(ArchiveRun { file_count, seen: 0, converted: 0, target })
        }
    }

    /// The step after one more file's conversion: a converted file is written
    /// and counted; with a target, a file without the node is skipped; any
    /// other failure stops the run.
    pub fn record(&mut self, outcome: Outcome) -> (step: Step)
        requires
            old(self).wf(),
            old(self).spec_seen() < old(self).spec_file_count(),
        ensures
            final(self).wf(),
            final(self).spec_file_count() == old(self).spec_file_count(),
            final(self).spec_target() == old(self).spec_target(),
            final(self).spec_seen() == old(self).spec_seen() + 1,
            step == (match outcome {
                Outcome::Converted => Step::Write,
                Outcome::NodeNotFound => if old(self).spec_target() is Some {
                    Step::Skip
                } else {
                    Step::Abort
                },
                Outcome::Failed => Step::Abort,
            }),
            final(self).spec_converted() == old(self).spec_converted() + (if step == Step::Write {
                1int
            } else {
                0int
            }),
    {
        self.seen = self.seen + 1;
        match outcome {
            Outcome::Converted => {
                self.converted = self.converted + 1;
                Step::Write
            },
            Outcome::NodeNotFound => if self.target.is_some() {
                Step::Skip
            } else {
                Step::Abort
            },
            Outcome::Failed => Step::Abort,
        }
    }

    /// The number of files converted so far.
    pub fn converted(&self) -> (r: usize)
        ensures
            r == self.spec_converted(),
    {
        self.converted
    }

    /// Ends the run: with a target that no file held, the run fails naming the
    /// node; otherwise its summary counts the converted files and, with a
    /// target, the files skipped for lack of the node.
    pub fn finish(&self) -> (r: Result<String, CliError>)
        requires
            self.wf(),
        ensures
            self.spec_target() is Some && self.spec_converted() > 0 && self.spec_file_count()
                > self.spec_converted() ==> (r matches Ok(s) && s@ == "Done! Converted "@
                + decimal_digits(self.spec_converted()) + " file(s); skipped "@ + decimal_digits(
                (self.spec_file_count() - self.spec_converted()) as nat,
            ) + " without the node"@),
            (self.spec_target() is None || (self.spec_converted() > 0 && self.spec_file_count()
                == self.spec_converted())) ==> (r matches Ok(s) && s@ == "Done! Converted "@
                + decimal_digits(self.spec_converted()) + " file(s)"@),
            match self.spec_target() {
                Some(id) => if self.spec_converted() == 0 {
                    r == Err::<String, CliError>(CliError::NodeNotInArchive(id))
                } else {
                    r matches Ok(s) && s@ == summary_text(
                        self.spec_converted(),
                        (self.spec_file_count() - self.spec_converted()) as nat,
                        true,
                    )
                },
                None => r matches Ok(s) && s@ == summary_text(
                    self.spec_converted(),
                    (self.spec_file_count() - self.spec_converted()) as nat,
                    false,
                ),
            },
    {
        let targeted = match self.target {
            Some(id) => {
                if self.converted == 0 {
                    return Err(CliError::NodeNotInArchive(id));
                }
                true
            },
            None => false,
        };
        let skipped = self.file_count - self.converted;
        let mut s = String::from_str("Done! Converted ");
        push_decimal(&mut s, self.converted as u64);
        if targeted && skipped > 0 {
            s.append(" file(s); skipped ");
            push_decimal(&mut s, skipped as u64);
            s.append(" without the node");
        } else {
            s.append(" file(s)");
        }
        Ok(s)
    }
}

} // verus!
