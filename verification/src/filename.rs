//! Resolution of Slurm's filename patterns.
//!
//! A path that a user gives for a job's output may hold specifiers, such as `%j` for the job's id.
//! See <https://slurm.schedmd.com/sbatch.html#SECTION_%3CB%3Efilename-pattern%3C/B%3E>.
use crate::{path, text};
use vstd::prelude::*;
use vstd::string::StrSliceExecFns;

verus! {

/// The regular expression of a specifier.
pub const SPECIFIER_PATTERN: &'static str = "%(%|A|a|J|j|N|n|s|t|u|x)";

/// What `squeue` prints for the array task id of a job that is in no array.
pub const NO_ARRAY_TASK: &'static str = "N/A";

/// What Slurm puts in a filename for a number that is not set.
pub const SLURM_NO_VAL: &'static str = "4294967294";

/// The letters that make a specifier when they follow a percent sign.
pub open spec fn is_specifier_letter(c: char) -> bool {
    ||| c == '%'
    ||| c == 'A'
    ||| c == 'a'
    ||| c == 'J'
    ||| c == 'j'
    ||| c == 'N'
    ||| c == 'n'
    ||| c == 's'
    ||| c == 't'
    ||| c == 'u'
    ||| c == 'x'
}

/// `text` starts with a specifier.
pub open spec fn starts_with_specifier(text: Seq<char>) -> bool {
    text.len() >= 2 && text[0] == '%' && is_specifier_letter(text[1])
}

/// Context needed to resolve Slurm's filename patterns (e.g. `%j`, `%u`) in `stdout` and `stderr`
/// paths into concrete paths.
#[derive(Clone, Copy, Debug)]
pub struct FilenameContext<'a> {
    pub array_master: &'a str,
    pub array_id: &'a str,
    pub id: &'a str,
    pub host: &'a str,
    pub user: &'a str,
    pub name: &'a str,
    pub working_dir: &'a str,
}

/// What a [`FilenameContext`] holds, as text.
pub struct FilenameContextView {
    pub array_master: Seq<char>,
    pub array_id: Seq<char>,
    pub id: Seq<char>,
    pub host: Seq<char>,
    pub user: Seq<char>,
    pub name: Seq<char>,
    pub working_dir: Seq<char>,
}

impl<'a> View for FilenameContext<'a> {
    type V = FilenameContextView;

    open spec fn view(&self) -> FilenameContextView {
        FilenameContextView {
            array_master: self.array_master@,
            array_id: self.array_id@,
            id: self.id@,
            host: self.host@,
            user: self.user@,
            name: self.name@,
            working_dir: self.working_dir@,
        }
    }
}

impl FilenameContextView {
    /// The array task id as Slurm writes it in a filename.
    pub open spec fn array_task(self) -> Seq<char> {
        if self.array_id == NO_ARRAY_TASK@ {
            SLURM_NO_VAL@
        } else {
            self.array_id
        }
    }

    /// What the specifier `%` followed by `letter` stands for.
    pub open spec fn value(self, letter: char) -> Seq<char> {
        if letter == '%' {
            seq!['%']
        } else if letter == 'A' {
            self.array_master
        } else if letter == 'a' {
            self.array_task()
        } else if letter == 'J' || letter == 'j' {
            self.id
        } else if letter == 'N' {
            text::split_on(self.host, seq![','])[0]
        } else if letter == 'n' || letter == 't' {
            seq!['0']
        } else if letter == 's' {
            "batch"@
        } else if letter == 'u' {
            self.user
        } else {
            self.name
        }
    }

    /// `text` with every specifier, found from left to right, replaced by what it stands for. A
    /// value is not searched for further specifiers.
    pub open spec fn substituted(self, text: Seq<char>) -> Seq<char>
        decreases text.len(),
    {
        if text.len() == 0 {
            text
        } else if starts_with_specifier(text) {
            self.value(text[1]) + self.substituted(text.skip(2))
        } else {
            seq![text[0]] + self.substituted(text.skip(1))
        }
    }

    /// The pattern that Slurm uses for a job that names no output file.
    pub open spec fn default_pattern(self) -> Seq<char> {
        path::joined(
            self.working_dir,
            if self.array_task() == SLURM_NO_VAL@ {
                "slurm-%J.out"@
            } else {
                "slurm-%A_%a.out"@
            },
        )
    }

    /// The file that `path` stands for: its specifiers replaced, seen from the working directory.
    pub open spec fn resolved(self, path: Seq<char>) -> Seq<char> {
        path::joined(
            self.working_dir,
            self.substituted(
                if path.len() == 0 {
                    self.default_pattern()
                } else {
                    path
                },
            ),
        )
    }
}

impl<'a> FilenameContext<'a> {
    /// The array task id as Slurm writes it in a filename.
    pub fn array_task(&self) -> (res: &'a str)
        ensures
            res@ == self@.array_task(),
            self.array_id@ == "N/A"@ ==> res@ == "4294967294"@,
            self.array_id@ != "N/A"@ ==> res@ == self.array_id@,
    {
        if text::same_text(self.array_id, NO_ARRAY_TASK) {
            SLURM_NO_VAL
        } else {
            self.array_id
        }
    }

    /// What `specifier` stands for.
    pub fn expand(&self, specifier: &str) -> (res: String)
        requires
            specifier@.len() == 2,
            starts_with_specifier(specifier@),
        ensures
            res@ == self@.value(specifier@[1]),
            specifier@[1] == '%' ==> res@ == "%"@,
            specifier@[1] == 'A' ==> res@ == self.array_master@,
            specifier@[1] == 'a' && self.array_id@ == "N/A"@ ==> res@ == "4294967294"@,
            specifier@[1] == 'a' && self.array_id@ != "N/A"@ ==> res@ == self.array_id@,
            specifier@[1] == 'J' || specifier@[1] == 'j' ==> res@ == self.id@,
            specifier@[1] == 'N' ==> !res@.contains(',') && (self.host@ == res@ || (res@ + seq![
                ',',
            ]).is_prefix_of(self.host@)),
            specifier@[1] == 'n' || specifier@[1] == 't' ==> res@ == "0"@,
            specifier@[1] == 's' ==> res@ == "batch"@,
            specifier@[1] == 'u' ==> res@ == self.user@,
            specifier@[1] == 'x' ==> res@ == self.name@,
    {
        let letter = specifier.get_char(1);
        proof {
            reveal_strlit("%");
            reveal_strlit("0");
            reveal_strlit(",");
        }
        if letter == 'N' {
            assert(","@ =~= seq![',']);
            let nodes = text::split(self.host, ",");
            proof {
                text::lemma_split_not_empty(self.host@, seq![',']);
                assert(nodes.deep_view()[0] == nodes@[0]@);
                text::lemma_first_piece(self.host@, ',');
            }
            return nodes[0].clone();
        }
        let value = match letter {
            '%' => "%",
            'A' => self.array_master,
            'a' => self.array_task(),
            'J' => self.id,
            'j' => self.id,
            'n' => "0",
            's' => "batch",
            't' => "0",
            'u' => self.user,
            _ => self.name,
        };
        assert(value@ =~= self@.value(letter));
        value.to_owned()
    }

    /// Resolves a path as Slurm would; the empty path stands for Slurm's default one.
    pub fn resolve(&self, path: &str) -> (res: Option<String>)
        ensures
            res is Some,
            res->0@ == self@.resolved(path@),
    {
        let pattern = if path.is_empty() {
            if text::same_text(self.array_task(), SLURM_NO_VAL) {
                path::join(self.working_dir, "slurm-%J.out")
            } else {
                path::join(self.working_dir, "slurm-%A_%a.out")
            }
        } else {
            path.to_owned()
        };
        let replaced = replace_specifiers(SPECIFIER_PATTERN, pattern.as_str(), self);
        Some(path::join(self.working_dir, replaced.as_str()))
    }
}

/// Calls `regex::Regex::replace_all` with the regular expression of a specifier.
///
/// Claimed of it: that this expression compiles, that its leftmost, non-overlapping matches in a
/// text are its specifiers from left to right, and that the result is the text with each match
/// replaced by what the closure returns for it, all other characters left as they are. The closure
/// is given nothing but matches, each a whole specifier.
#[verifier::external_body]
fn replace_specifiers(pattern: &str, text: &str, context: &FilenameContext<'_>) -> (res: String)
    requires
        pattern@ == SPECIFIER_PATTERN@,
    ensures
        res@ == context@.substituted(text@),
{
    let specifier = regex::Regex::new(pattern).unwrap();
    specifier.replace_all(text, |caps: &regex::Captures| context.expand(&caps[0])).into_owned()
}

} // verus!
