//! The structures and functions for configuration, and the validation of
//! new-project names.

use crate::text::chars_of;
use vstd::prelude::*;

verus! {

/// The overall options.
pub struct SupraConfig {
    pub command: SupraCommand,
    pub output: Option<Output>,
    pub pre_config: Option<PreConfig>,
    pub pan_config: Option<PanConfig>,
    pub post_config: Option<PostConfig>,
}

impl SupraConfig {
    pub fn new(
        command: SupraCommand,
        output: Option<Output>,
        pre_config: Option<PreConfig>,
        pan_config: Option<PanConfig>,
        post_config: Option<PostConfig>,
    ) -> (c: SupraConfig)
        ensures
            c == (SupraConfig { command, output, pre_config, pan_config, post_config }),
    {
        SupraConfig { command, output, pre_config, pan_config, post_config }
    }
}

/// The types of subcommands.
pub enum SupraCommand {
    Main,
    NewUserJournalFile,
    NewProject(String, bool, bool),
    ReplaceMake,
}

/// Output options.
#[derive(PartialEq, Eq, Structural, Debug)]
pub enum Output {
    StandardOut,
    Markdown,
    Docx,
}

/// Pre-processor configuration.
pub struct PreConfig {
    pub input: String,
    pub library: String,
    pub offset: i32,
    pub user_journals: Option<String>,
    pub smallcaps: bool,
}

impl PreConfig {
    pub fn new(
        input: String,
        library: String,
        offset: i32,
        user_journals: Option<String>,
        smallcaps: bool,
    ) -> (c: PreConfig)
        ensures
            c == (PreConfig { input, library, offset, user_journals, smallcaps }),
    {
        PreConfig { input, library, offset, user_journals, smallcaps }
    }
}

/// Pandoc configuration.
pub struct PanConfig {
    pub output: Option<String>,
    pub pandoc_reference: Option<String>,
}

impl PanConfig {
    pub fn new(output: Option<String>, pandoc_reference: Option<String>) -> (c: PanConfig)
        ensures
            c == (PanConfig { output, pandoc_reference }),
    {
        PanConfig { output, pandoc_reference }
    }
}

/// Post-processor configuration.
pub struct PostConfig {
    pub autocref: bool,
    pub author_note: bool,
    pub tabbed_footnotes: bool,
    pub no_superscript: bool,
    pub running_header: bool,
}

impl PostConfig {
    pub fn new(
        autocref: bool,
        author_note: bool,
        tabbed_footnotes: bool,
        no_superscript: bool,
        running_header: bool,
    ) -> (c: PostConfig)
        ensures
            c == (PostConfig {
                autocref,
                author_note,
                tabbed_footnotes,
                no_superscript,
                running_header,
            }),
    {
        PostConfig { autocref, author_note, tabbed_footnotes, no_superscript, running_header }
    }
}

/// The characters a file system cannot take in a project name.
pub open spec fn is_invalid_char(c: char) -> bool {
    c == ' ' || c == '#' || c == '%' || c == '&' || c == '{' || c == '}' || c == '\\' || c == '<'
        || c == '>' || c == '*' || c == '?' || c == '/' || c == '$' || c == '!' || c == '\''
        || c == '"' || c == ':' || c == '@' || c == '+' || c == '`' || c == '|' || c == '='
}

/// Checks for invalid characters.
///
/// Takes a character and returns a bool of whether it's okay.
pub fn valid_char(x: &char) -> (r: bool)
    ensures
        r == !is_invalid_char(*x),
{
    let c = *x;
    !(c == ' ' || c == '#' || c == '%' || c == '&' || c == '{' || c == '}' || c == '\\'
        || c == '<' || c == '>' || c == '*' || c == '?' || c == '/' || c == '$' || c == '!'
        || c == '\'' || c == '"' || c == ':' || c == '@' || c == '+' || c == '`' || c == '|'
        || c == '=')
}

/// Checks that a new project's name has only characters that the file system
/// is okay with.
pub fn valid_name(name: &str) -> (r: bool)
    ensures
        r == (forall|k: int| 0 <= k < name@.len() ==> !is_invalid_char(name@[k])),
{
    let v = chars_of(name);
    let n: usize = v.len();
    let mut i: usize = 0;
    while i < n
        invariant
            n == v@.len(),
            v@ == name@,
            i <= n,
            forall|k: int| 0 <= k < i ==> !is_invalid_char(name@[k]),
        decreases n - i,
    {
        if !valid_char(&v[i]) {
            return false;
        }
        i = i + 1;
    }
    true
}

} // verus!
