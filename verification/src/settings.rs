//! Settings values, how layered settings merge, and the outcome of reading a settings file.
use vstd::prelude::*;
use vstd::std_specs::convert::FromSpecImpl;
use crate::window_layout::WindowButtonLayout;
use std::collections::BTreeMap;
use serde_json::Value;

verus! {

/// Layering a settings value over another.
pub trait MergeFrom {
    /// Folds `other`, which comes later, into `self`.
    fn merge_from(&mut self, other: &Self);
}

/// A flag that, once set by any layer, stays set.
#[derive(Debug, Default, Copy, Clone, PartialEq, Structural)]
pub struct SaturatingBool(pub bool);

impl From<bool> for SaturatingBool {
    fn from(value: bool) -> (r: Self) {
        SaturatingBool(value)
    }
}

impl FromSpecImpl<bool> for SaturatingBool {
    open spec fn obeys_from_spec() -> bool {
        true
    }

    open spec fn from_spec(v: bool) -> Self {
        SaturatingBool(v)
    }
}

impl From<SaturatingBool> for bool {
    fn from(value: SaturatingBool) -> (r: bool) {
        value.0
    }
}

impl FromSpecImpl<SaturatingBool> for bool {
    open spec fn obeys_from_spec() -> bool {
        true
    }

    open spec fn from_spec(v: SaturatingBool) -> bool {
        v.0
    }
}

impl MergeFrom for SaturatingBool {
    fn merge_from(&mut self, other: &Self)
        ensures
            final(self).0 == (old(self).0 || other.0),
    {
        self.0 = self.0 || other.0;
    }
}

/// A flag after merging `layers` over `base` in order, each layer as
/// [`SaturatingBool::merge_from`] folds it in.
pub open spec fn merge_flag_layers(base: bool, layers: Seq<bool>) -> bool
    decreases layers.len(),
{
    if layers.len() == 0 {
        base
    } else {
        merge_flag_layers(base, layers.drop_last()) || layers.last()
    }
}

/// A saturating flag is set after merging layers exactly when the base or some layer set
/// it: no later layer can clear it.
pub proof fn saturating_flag_stays_set(base: bool, layers: Seq<bool>)
    ensures
        merge_flag_layers(base, layers) == (base || layers.contains(true)),
    decreases layers.len(),
{
    if layers.len() > 0 {
        let d = layers.drop_last();
        saturating_flag_stays_set(base, d);
        if d.contains(true) {
            let i = choose|i: int| 0 <= i < d.len() && d[i] == true;
            assert(layers[i] == true);
        }
        if layers.contains(true) && !layers.last() {
            let i = choose|i: int| 0 <= i < layers.len() && layers[i] == true;
            assert(d[i] == true);
        }
        if layers.last() {
            assert(layers[layers.len() - 1] == true);
        }
    }
}

/// A list that each layer extends instead of replacing.
#[derive(Default, Debug, Clone, PartialEq)]
pub struct ExtendingVec<T>(pub Vec<T>);

impl<T> ExtendingVec<T> {
    /// The list's items.
    pub fn into_vec(self) -> (r: Vec<T>)
        ensures
            r@ == self.0@,
    {
        self.0
    }
}

impl<T> From<Vec<T>> for ExtendingVec<T> {
    fn from(vec: Vec<T>) -> (r: Self)
        ensures
            r.0@ == vec@,
    {
        ExtendingVec(vec)
    }
}

impl<T> FromSpecImpl<Vec<T>> for ExtendingVec<T> {
    open spec fn obeys_from_spec() -> bool {
        true
    }

    open spec fn from_spec(v: Vec<T>) -> Self {
        ExtendingVec(v)
    }
}

impl<T: Clone> MergeFrom for ExtendingVec<T> {
    fn merge_from(&mut self, other: &Self)
        ensures
            final(self).0@.len() == old(self).0@.len() + other.0@.len(),
            forall|i: int|
                0 <= i < old(self).0@.len() ==> #[trigger] final(self).0@[i] == old(self).0@[i],
            forall|i: int|
                0 <= i < other.0@.len() ==> cloned::<T>(
                    other.0@[i],
                    #[trigger] final(self).0@[old(self).0@.len() + i],
                ),
    {
        self.0.extend_from_slice(other.0.as_slice());
        proof {
            assert forall|i: int| 0 <= i < other.0@.len() implies cloned::<T>(
                other.0@[i],
                #[trigger] self.0@[old(self).0@.len() + i],
            ) by {
                let k = old(self).0@.len() + i;
                assert(k - old(self).0@.len() == i);
            }
        }
    }
}

#[derive(Debug, Clone, PartialEq, Eq)]
pub enum ParseStatus {
    Success,
    Unchanged,
    Failed { error: String },
}

#[derive(Debug, Clone, PartialEq, Eq, Hash)]
pub struct SshPortForwardOption {
    pub local_host: Option<String>,
    pub local_port: u16,
    pub remote_host: Option<String>,
    pub remote_port: u16,
}

#[derive(Copy, Clone, Debug, PartialEq, Eq, Structural)]
pub enum SeedQuerySetting {
    Always,
    Selection,
    Never,
}

#[derive(Debug, PartialEq, Eq, Clone, Copy, Default, Structural)]
pub enum SemanticTokens {
    #[default]
    Off,
    Combined,
    Full,
}

#[derive(Debug, PartialEq, Eq, Clone, Copy, Default, Structural)]
pub enum DocumentFoldingRanges {
    #[default]
    Off,
    On,
}

#[derive(Debug, PartialEq, Eq, Clone, Copy, Default, Structural)]
pub enum DocumentSymbols {
    #[default]
    Off,
    On,
}

#[derive(Clone, Debug, PartialEq, Default)]
pub struct WorkspaceSettingsContent {
    pub use_system_window_tabs: Option<bool>,
}

#[derive(Clone, Debug, Default, PartialEq)]
pub struct WorktreeSettingsContent {
    pub prevent_sharing_in_public_channels: bool,
    pub file_scan_exclusions: Option<Vec<String>>,
    pub file_scan_inclusions: Option<Vec<String>>,
    pub private_files: Option<ExtendingVec<String>>,
    pub hidden_files: Option<Vec<String>>,
    pub read_only_files: Option<Vec<String>>,
}

#[derive(Clone, Debug, Default, PartialEq, Eq, Hash)]
pub struct FetchSettings {
    pub pre_release: Option<bool>,
}

#[derive(Clone, Debug, Default, PartialEq, Eq, Hash)]
pub struct BinarySettings {
    pub path: Option<String>,
    pub arguments: Option<Vec<String>>,
    pub env: Option<BTreeMap<String, String>>,
    pub ignore_system_version: Option<bool>,
}

/// `serde_json::Value`, a JSON value handed on to a language server as it stands.
#[verifier::external_type_specification]
#[verifier::external_body]
pub struct ExJsonValue(Value);

/// How to run and configure one language server.
#[derive(Clone, Debug, PartialEq)]
pub struct LspSettings {
    pub binary: Option<BinarySettings>,
    /// Options passed to the language server at startup.
    pub initialization_options: Option<Value>,
    /// Language server settings.
    pub settings: Option<Value>,
    /// Whether the server may send tasks over its extensions.
    pub enable_lsp_tasks: bool,
    pub fetch: Option<FetchSettings>,
}

impl Default for LspSettings {
    /// No binary, options, settings or fetch settings; tasks enabled.
    fn default() -> (r: Self)
        ensures
            r.binary is None,
            r.initialization_options is None,
            r.settings is None,
            r.enable_lsp_tasks,
            r.fetch is None,
    {
        LspSettings {
            binary: None,
            initialization_options: None,
            settings: None,
            enable_lsp_tasks: true,
            fetch: None,
        }
    }
}

#[derive(Copy, Clone, Debug, Default, PartialEq, Eq, Structural)]
pub enum SemanticTokenFontWeight {
    #[default]
    Normal,
    Bold,
}

#[derive(Copy, Clone, Debug, Default, PartialEq, Eq, Structural)]
pub enum SemanticTokenFontStyle {
    #[default]
    Normal,
    Italic,
}

#[derive(Clone, Debug, PartialEq, Eq)]
pub struct OAuthClientSettings {
    pub client_id: String,
    pub client_secret: Option<String>,
}

#[derive(Clone, PartialEq, Debug, Default, Structural)]
pub enum DirenvSettings {
    ShellHook,
    #[default]
    Direct,
    Disabled,
}

#[derive(Debug, PartialEq, Clone)]
pub struct GitHostingProviderConfig {
    pub provider: GitHostingProviderKind,
    pub base_url: String,
    pub name: String,
}

#[derive(Debug, Clone, PartialEq, Structural)]
pub enum GitHostingProviderKind {
    Github,
    Gitlab,
    Bitbucket,
    Gitea,
    Forgejo,
    SourceHut,
}

/// Identifies a worktree.
#[derive(Copy, Clone, PartialEq, Eq, Debug, Hash, PartialOrd, Ord, Structural)]
pub struct WorktreeId(usize);

impl View for WorktreeId {
    type V = usize;

    closed spec fn view(&self) -> usize {
        self.0
    }
}

impl WorktreeId {
    pub fn from_usize(handle_id: usize) -> (r: Self)
        ensures
            r@ == handle_id,
    {
        Self(handle_id)
    }

    pub fn to_usize(&self) -> (r: usize)
        ensures
            r == self@,
    {
        self.0
    }

    /// Worktrees with the same number are the same worktree.
    pub proof fn lemma_view_injective(self, other: Self)
        ensures
            self@ == other@ ==> self == other,
    {
    }
}

/// The result of parsing settings, including any migration attempts
#[derive(Debug, Clone, PartialEq, Eq)]
pub struct SettingsParseResult {
    /// The result of parsing the settings file (possibly after migration)
    pub parse_status: ParseStatus,
    /// The result of attempting to migrate the settings file
    pub migration_status: MigrationStatus,
}

#[derive(Debug, Clone, PartialEq, Eq)]
pub enum MigrationStatus {
    /// No migration was needed - settings are up to date
    NotNeeded,
    /// Settings were automatically migrated in memory, but the file needs to be updated
    Succeeded,
    /// Migration was attempted but failed. Original settings were parsed instead.
    Failed { error: String },
}

#[derive(Copy, Clone, Debug)]
pub struct TitleBarSettings {
    pub show_branch_name: bool,
    pub show_project_items: bool,
    pub show_menus: bool,
    pub button_layout: Option<WindowButtonLayout>,
}

} // verus!
