use vstd::prelude::*;

verus! {

/// Configuration of the hook engine: the tag whose presence on a task calls
/// for a notes file, the directory the notes files live in, and their file
/// extension.
pub struct Config {
    /// The tag indicating a task is eligible for notes file creation.
    pub notes_tag: String,
    /// Base directory where notes files are created.
    pub notes_dir: String,
    /// File extension used for notes files.
    pub notes_ext: String,
}

/// The mathematical content of a [`Config`].
pub struct ConfigView {
    pub notes_tag: Seq<char>,
    pub notes_dir: Seq<char>,
    pub notes_ext: Seq<char>,
}

impl View for Config {
    type V = ConfigView;

    open spec fn view(&self) -> ConfigView {
        ConfigView {
            notes_tag: self.notes_tag@,
            notes_dir: self.notes_dir@,
            notes_ext: self.notes_ext@,
        }
    }
}

impl Config {
    /// Relies on `Box::leak`: pins this configuration for the rest of the
    /// process lifetime and hands back a reference to it, unchanged.
    #[verifier::external_body]
    pub fn to_static(self) -> (r: &'static Config)
        ensures
            r@ == self@,
    {
        Box::leak(Box::new(self))
    }

    /// A copy of this configuration.
    pub fn duplicate(&self) -> (r: Config)
        ensures
            r@ == self@,
    {
        Config {
            notes_tag: self.notes_tag.clone(),
            notes_dir: self.notes_dir.clone(),
            notes_ext: self.notes_ext.clone(),
        }
    }
}

impl Default for Config {
    /// The stock configuration: tag `wiki`, the author's scratch directory,
    /// extension `md`.
    fn default() -> (r: Config)
        ensures
            r@.notes_tag == "wiki"@,
            r@.notes_dir == "/home/weinshec/scratch"@,
            r@.notes_ext == "md"@,
    {
        Config {
            notes_tag: String::from_str("wiki"),
            notes_dir: String::from_str("/home/weinshec/scratch"),
            notes_ext: String::from_str("md"),
        }
    }
}

} // verus!
