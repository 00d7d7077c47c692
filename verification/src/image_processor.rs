//! Where the tags of each image are written, and what is written there.

use vstd::prelude::*;
use crate::config::Config;
use crate::labels::{Label, LabelAnalyzer, TagScores};
use crate::paths::{file_stem, file_stem_of, without_last, ImagePath};

verus! {

/// The directory that mirrors, under `output`, the directory of `path`
/// under `input`; `None` where `path` does not lie under `input`.
pub open spec fn mirrored_dir(
    input: Seq<Seq<char>>,
    output: Seq<Seq<char>>,
    path: Seq<Seq<char>>,
) -> Option<Seq<Seq<char>>> {
    if input.is_prefix_of(path) {
        Some(output + without_last(path.skip(input.len() as int)))
    } else {
        None
    }
}

/// The name of the tag file of an image: the stem of the image's file name
/// and `.txt`; `None` where the path ends in no file name.
pub open spec fn tag_file_name(path: Seq<Seq<char>>) -> Option<Seq<char>> {
    match file_stem_of(path) {
        Some(stem) => Some(stem + ".txt"@),
        None => None,
    }
}

/// The names of a list of tags with their scores.
pub open spec fn names_of(tags: Seq<(Seq<char>, u64)>) -> Seq<Seq<char>> {
    Seq::new(tags.len(), |i: int| tags[i].0)
}

/// The names, each but the first after a comma and a space.
pub open spec fn joined(names: Seq<Seq<char>>) -> Seq<char>
    decreases names.len(),
{
    if names.len() == 0 {
        Seq::empty()
    } else if names.len() == 1 {
        names[0]
    } else {
        joined(names.drop_last()) + ", "@ + names.last()
    }
}

/// The text of a tag file: the general tags, then the character tags.
pub open spec fn tag_line_of(
    general: Seq<(Seq<char>, u64)>,
    character: Seq<(Seq<char>, u64)>,
) -> Seq<char> {
    joined(names_of(general) + names_of(character))
}

/// One file to write.
#[derive(Debug)]
pub struct OutputFile {
    /// The directory to make before writing.
    pub dir: ImagePath,
    /// The file, in that directory.
    pub path: ImagePath,
    /// What the file holds.
    pub content: String,
}

/// Why a batch has no output.
#[derive(Clone, Copy, Debug, PartialEq, Eq)]
pub enum OutputError {
    /// There are not as many analyses as paths.
    CountMismatch,
    /// The path at this position does not lie under the input directory.
    OutsideInput(usize),
    /// The path at this position ends in no file name.
    NoFileName(usize),
}

/// The settings that decide the output of a run.
pub struct ImageProcessor {
    input_dir: ImagePath,
    output_dir: ImagePath,
    general_threshold: u64,
    general_mcut_enabled: bool,
    character_threshold: u64,
    character_mcut_enabled: bool,
}

impl ImageProcessor {
    /// The input directory.
    pub closed spec fn input_dir(self) -> Seq<Seq<char>> {
        self.input_dir.parts()
    }

    /// The output directory.
    pub closed spec fn output_dir(self) -> Seq<Seq<char>> {
        self.output_dir.parts()
    }

    /// The threshold settings: the fixed threshold and the adaptive switch of
    /// the general tags, then those of the character tags.
    pub closed spec fn thresholds(self) -> (u64, bool, u64, bool) {
        (
            self.general_threshold,
            self.general_mcut_enabled,
            self.character_threshold,
            self.character_mcut_enabled,
        )
    }

    /// The image at `path` has a place for its tag file.
    pub open spec fn has_output(self, path: ImagePath) -> bool {
        &&& mirrored_dir(self.input_dir(), self.output_dir(), path.parts()) is Some
        &&& tag_file_name(path.parts()) is Some
    }

    /// `file` is the tag file of the image at `path` with the given tags.
    pub open spec fn is_output_of(
        self,
        file: OutputFile,
        path: Seq<Seq<char>>,
        general: Seq<(Seq<char>, u64)>,
        character: Seq<(Seq<char>, u64)>,
    ) -> bool {
        &&& mirrored_dir(self.input_dir(), self.output_dir(), path) == Some(file.dir.parts())
        &&& tag_file_name(path) is Some
        &&& file.path.parts() == file.dir.parts().push(tag_file_name(path)->0)
        &&& file.content@ == tag_line_of(general, character)
    }

    /// Takes from `config` what decides the output.
    pub fn new(config: &Config) -> (processor: Self)
        ensures
            processor.input_dir() == config.input_dir.parts(),
            processor.output_dir() == config.output_dir.parts(),
            processor.thresholds() == (
                config.general_threshold,
                config.general_mcut_enabled,
                config.character_threshold,
                config.character_mcut_enabled,
            ),
    {
        ImageProcessor {
            input_dir: config.input_dir.duplicate(),
            output_dir: config.output_dir.duplicate(),
            general_threshold: config.general_threshold,
            general_mcut_enabled: config.general_mcut_enabled,
            character_threshold: config.character_threshold,
            character_mcut_enabled: config.character_mcut_enabled,
        }
    }

    /// Builds the analyzer of a vocabulary with the thresholds of this run.
    pub fn analyzer(&self, labels: Vec<Label>) -> (analyzer: LabelAnalyzer)
        ensures
            analyzer.tags() == crate::labels::tag_names(labels@),
            analyzer.rating_indices() == crate::labels::indices_of(
                crate::labels::categories(labels@),
                crate::labels::RATING,
            ),
            analyzer.general_indices() == crate::labels::indices_of(
                crate::labels::categories(labels@),
                crate::labels::GENERAL,
            ),
            analyzer.character_indices() == crate::labels::indices_of(
                crate::labels::categories(labels@),
                crate::labels::CHARACTER,
            ),
            (
                analyzer.general_threshold(),
                analyzer.general_mcut_enabled(),
                analyzer.character_threshold(),
                analyzer.character_mcut_enabled(),
            ) == self.thresholds(),
    {
        LabelAnalyzer::new(
            labels,
            self.general_threshold,
            self.general_mcut_enabled,
            self.character_threshold,
            self.character_mcut_enabled,
        )
    }

    /// The directory for the tag file of the image at `path`: the one that
    /// lies under the output directory as the image's directory lies under
    /// the input directory.
    pub fn output_subdir(&self, path: &ImagePath) -> (dir: Option<ImagePath>)
        ensures
            match dir {
                Some(d) => mirrored_dir(self.input_dir(), self.output_dir(), path.parts()) == Some(
                    d.parts(),
                ),
                None => mirrored_dir(self.input_dir(), self.output_dir(), path.parts()) is None,
            },
    {
        match path.strip_prefix(&self.input_dir) {
            Some(relative) => {
                let parent = relative.parent_or_empty();
                Some(self.output_dir.join(&parent))
            },
            None => None,
        }
    }

    /// The text of a tag file: the names of the general tags, then those of
    /// the character tags, separated by a comma and a space.
    pub fn tag_line(general: &TagScores, character: &TagScores) -> (line: String)
        ensures
            line@ == tag_line_of(general.deep_view(), character.deep_view()),
    {
        let ghost names = names_of(general.deep_view()) + names_of(character.deep_view());
        let mut line = String::new();
        let mut i: usize = 0;
        assert(names.take(0) =~= Seq::empty());
        while i < general.len()
            invariant
                i <= general@.len(),
                names == names_of(general.deep_view()) + names_of(character.deep_view()),
                line@ == joined(names.take(i as int)),
            decreases general.len() - i,
        {
            let name: &str = general[i].0;
            proof {
                assert(names[i as int] == name@);
                lemma_joined_step(names, i as int);
            }
            if i > 0 {
                line.append(", ");
            }
            line.append(name);
            i += 1;
        }
        let n: usize = general.len();
        let mut j: usize = 0;
        while j < character.len()
            invariant
                j <= character@.len(),
                n == general@.len(),
                names == names_of(general.deep_view()) + names_of(character.deep_view()),
                line@ == joined(names.take(n + j)),
            decreases character.len() - j,
        {
            let name: &str = character[j].0;
            proof {
                assert(names[n + j] == name@);
                lemma_joined_step(names, n + j);
            }
            if n > 0 || j > 0 {
                line.append(", ");
            }
            line.append(name);
            j += 1;
        }
        assert(names.take(n + j) =~= names);
        line
    }

    /// Lays out the tag files of one batch: for the image at each position,
    /// its directory, its file and the text made of the general and the
    /// character tags of the analysis at that position. Nothing is laid out
    /// where the counts differ, or where some path does not lie under the
    /// input directory or ends in no file name; the error names the first
    /// such path.
    pub fn process(
        &self,
        paths: &Vec<ImagePath>,
        labels: &Vec<(TagScores, TagScores, TagScores)>,
    ) -> (r: Result<Vec<OutputFile>, OutputError>)
        ensures
            match r {
                Ok(files) => {
                    &&& paths@.len() == labels@.len()
                    &&& files@.len() == paths@.len()
                    &&& forall|i: int|
                        0 <= i < files@.len() ==> self.is_output_of(
                            #[trigger] files@[i],
                            paths@[i].parts(),
                            labels@[i].1.deep_view(),
                            labels@[i].2.deep_view(),
                        )
                },
                Err(OutputError::CountMismatch) => paths@.len() != labels@.len(),
                Err(OutputError::OutsideInput(i)) => {
                    &&& paths@.len() == labels@.len()
                    &&& i < paths@.len()
                    &&& mirrored_dir(self.input_dir(), self.output_dir(), paths@[i as int].parts())
                        is None
                    &&& forall|j: int| 0 <= j < i ==> self.has_output(#[trigger] paths@[j])
                },
                Err(OutputError::NoFileName(i)) => {
                    &&& paths@.len() == labels@.len()
                    &&& i < paths@.len()
                    &&& mirrored_dir(self.input_dir(), self.output_dir(), paths@[i as int].parts())
                        is Some
                    &&& tag_file_name(paths@[i as int].parts()) is None
                    &&& forall|j: int| 0 <= j < i ==> self.has_output(#[trigger] paths@[j])
                },
            },
    {
        if paths.len() != labels.len() {
            return Err(OutputError::CountMismatch);
        }
        let mut files: Vec<OutputFile> = Vec::with_capacity(paths.len());
        let mut i: usize = 0;
        while i < paths.len()
            invariant
                i <= paths@.len(),
                paths@.len() == labels@.len(),
                files@.len() == i,
                forall|j: int| 0 <= j < i ==> self.has_output(#[trigger] paths@[j]),
                forall|j: int|
                    0 <= j < i ==> self.is_output_of(
                        #[trigger] files@[j],
                        paths@[j].parts(),
                        labels@[j].1.deep_view(),
                        labels@[j].2.deep_view(),
                    ),
            decreases paths.len() - i,
        {
            let path = &paths[i];
            let dir = match self.output_subdir(path) {
                Some(dir) => dir,
                None => {
                    return Err(OutputError::OutsideInput(i));
                },
            };
            let n: usize = path.components.len();
            if n == 0 {
                assert(path.parts().len() == 0);
                return Err(OutputError::NoFileName(i));
            }
            assert(path.parts().last() == path.components@[n - 1]@);
            let stem = match file_stem(path.components[n - 1].as_str()) {
                Some(stem) => stem,
                None => {
                    return Err(OutputError::NoFileName(i));
                },
            };
            let name = stem.concat(".txt");
            let file = dir.child(name);
            let content = Self::tag_line(&labels[i].1, &labels[i].2);
            files.push(OutputFile { dir, path: file, content });
            i += 1;
        }
        Ok(files)
    }
}

/// Joining one more name adds it, after a comma and a space where it is not
/// the first.
pub proof fn lemma_joined_step(names: Seq<Seq<char>>, i: int)
    requires
        0 <= i < names.len(),
    ensures
        joined(names.take(i + 1)) == if i == 0 {
            names[i]
        } else {
            joined(names.take(i)) + ", "@ + names[i]
        },
{
    assert(names.take(i + 1).drop_last() =~= names.take(i));
    assert(names.take(i + 1).last() == names[i]);
}

/// The tag file's directory lies under the output directory exactly as the
/// image's directory lies under the input directory.
pub proof fn lemma_output_mirrors_input(
    input: Seq<Seq<char>>,
    output: Seq<Seq<char>>,
    path: Seq<Seq<char>>,
)
    requires
        input.is_prefix_of(path),
    ensures
        mirrored_dir(input, output, path) is Some,
        output.is_prefix_of(mirrored_dir(input, output, path)->0),
        mirrored_dir(input, output, path)->0.skip(output.len() as int) == without_last(
            path.skip(input.len() as int),
        ),
{
    let dir = mirrored_dir(input, output, path)->0;
    let relative = without_last(path.skip(input.len() as int));
    assert(dir.subrange(0, output.len() as int) =~= output);
    assert(dir.skip(output.len() as int) =~= relative);
}

} // verus!
