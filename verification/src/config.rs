//! Root directory layout and user configuration.
//!
//! Reading the configuration file and resolving the home directory happen
//! outside the library; this module owns the layout derived from a root
//! and the defaults applied to absent options.

use vstd::prelude::*;

verus! {

/// The directories the tool works in, derived from one root.
#[derive(Debug)]
pub struct Paths {
    pub root: String,
    /// Full-text index directory: `<root>/index`.
    pub index: String,
    /// Vector store directory: `<root>/vectors`.
    pub vectors: String,
    /// Scan-state directory: `<root>/state`.
    pub state: String,
}

impl Paths {
    /// Derives the fixed layout under `root`.
    pub fn from_root(root: String) -> (r: Paths)
        ensures
            r.root@ == root@,
            r.index@ == root@ + "/index"@,
            r.vectors@ == root@ + "/vectors"@,
            r.state@ == root@ + "/state"@,
    {
        let index = root.clone().concat("/index");
        let vectors = root.clone().concat("/vectors");
        let state = root.clone().concat("/state");
        Paths { root, index, vectors, state }
    }
}

impl Clone for Paths {
    fn clone(&self) -> (r: Self)
        ensures
            r == *self,
    {
        Paths {
            root: self.root.clone(),
            index: self.index.clone(),
            vectors: self.vectors.clone(),
            state: self.state.clone(),
        }
    }
}

/// The options of `config.toml`, all optional; absent options fall back
/// to the defaults the getters below state.
#[derive(Debug)]
pub struct UserConfig {
    /// Maintain the vector store (default true).
    pub embeddings: Option<bool>,
    /// Run ingestion when the UI opens (default true).
    pub auto_index_on_search: Option<bool>,
    /// Embedding model tag (default `potion`).
    pub model: Option<String>,
    /// Skip rescans within this many seconds (default 3600).
    pub scan_cache_ttl: Option<u64>,
    /// Run the background index service in watch mode (default false).
    pub index_service_watch: Option<bool>,
    /// Background service interval in seconds (default 3600).
    pub index_service_interval: Option<u64>,
    /// Background service watch interval in seconds (default 30).
    pub index_service_watch_interval: Option<u64>,
    /// Background service label.
    pub index_service_label: Option<String>,
    /// Background service stdout log path.
    pub index_service_stdout: Option<String>,
    /// Background service stderr log path.
    pub index_service_stderr: Option<String>,
    /// Background service property-list path.
    pub index_service_plist: Option<String>,
    /// Resume command template for Chat sessions.
    pub chat_resume_cmd: Option<String>,
    /// Resume command template for Codex sessions.
    pub codex_resume_cmd: Option<String>,
}

impl Default for UserConfig {
    /// A configuration with every option absent.
    fn default() -> (r: Self)
        ensures
            r.embeddings is None,
            r.auto_index_on_search is None,
            r.model is None,
            r.scan_cache_ttl is None,
            r.index_service_watch is None,
            r.index_service_interval is None,
            r.index_service_watch_interval is None,
            r.index_service_label is None,
            r.index_service_stdout is None,
            r.index_service_stderr is None,
            r.index_service_plist is None,
            r.chat_resume_cmd is None,
            r.codex_resume_cmd is None,
    {
        UserConfig {
            embeddings: None,
            auto_index_on_search: None,
            model: None,
            scan_cache_ttl: None,
            index_service_watch: None,
            index_service_interval: None,
            index_service_watch_interval: None,
            index_service_label: None,
            index_service_stdout: None,
            index_service_stderr: None,
            index_service_plist: None,
            chat_resume_cmd: None,
            codex_resume_cmd: None,
        }
    }
}

impl UserConfig {
    /// Whether the vector store is maintained; true unless switched off.
    pub fn embeddings_default(&self) -> (r: bool)
        ensures
            r == (match self.embeddings {
                Some(b) => b,
                None => true,
            }),
    {
        match self.embeddings {
            Some(b) => b,
            None => true,
        }
    }

    /// Whether opening the UI triggers ingestion; true unless switched off.
    pub fn auto_index_on_search_default(&self) -> (r: bool)
        ensures
            r == (match self.auto_index_on_search {
                Some(b) => b,
                None => true,
            }),
    {
        match self.auto_index_on_search {
            Some(b) => b,
            None => true,
        }
    }

    /// The configured model tag, `potion` when none is set.
    pub fn model(&self) -> (r: Option<&str>)
        ensures
            r matches Some(s),
            self.model matches Some(m) ==> (r matches Some(s) && s@ == m@),
            self.model is None ==> (r matches Some(s) && s@ == "potion"@),
    {
        match &self.model {
            Some(m) => Some(m.as_str()),
            None => Some("potion"),
        }
    }

    /// Seconds within which a fresh scan is not repeated; 3600 by default.
    pub fn scan_cache_ttl(&self) -> (r: u64)
        ensures
            r == (match self.scan_cache_ttl {
                Some(t) => t,
                None => 3600u64,
            }),
    {
        match self.scan_cache_ttl {
            Some(t) => t,
            None => 3600,
        }
    }

    /// Whether the background service watches continuously; false unless set.
    pub fn index_service_watch_default(&self) -> (r: bool)
        ensures
            r == (match self.index_service_watch {
                Some(b) => b,
                None => false,
            }),
    {
        match self.index_service_watch {
            Some(b) => b,
            None => false,
        }
    }

    /// The background service interval in seconds; 3600 by default.
    pub fn index_service_interval(&self) -> (r: u64)
        ensures
            r == (match self.index_service_interval {
                Some(t) => t,
                None => 3600u64,
            }),
    {
        match self.index_service_interval {
            Some(t) => t,
            None => 3600,
        }
    }

    /// The background service watch interval in seconds; 30 by default.
    pub fn index_service_watch_interval(&self) -> (r: u64)
        ensures
            r == (match self.index_service_watch_interval {
                Some(t) => t,
                None => 30u64,
            }),
    {
        match self.index_service_watch_interval {
            Some(t) => t,
            None => 30,
        }
    }
}

} // verus!
