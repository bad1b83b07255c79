use vstd::prelude::*;

verus! {

/// Bytes in a mebibyte.
pub const MIB: u64 = 1024 * 1024;

/// Downloader settings.
#[derive(Clone, Debug)]
pub struct Config {
    pub db_path: String,
    pub download_dir: String,
    pub max_connections: usize,
    pub base_connections: usize,
    pub min_connections: usize,
    pub chunk_size_mb: u64,
    pub user_agents: Vec<String>,
    pub proxies: Vec<String>,
    pub request_delay_ms: u64,
    pub max_retries: u32,
}

impl Default for Config {
    fn default() -> (c: Self)
        ensures
            c.db_path@ == "idm_state.sqlite"@,
            c.download_dir@ == "downloads"@,
            c.max_connections == 32,
            c.base_connections == 8,
            c.min_connections == 2,
            c.chunk_size_mb == 8,
            c.user_agents@.len() == 3,
            c.user_agents@[0]@ == "Mozilla/5.0 (Windows NT 10.0; Win64; x64) AppleWebKit/537.36"@,
            c.user_agents@[1]@ == "Mozilla/5.0 (X11; Linux x86_64) AppleWebKit/537.36"@,
            c.user_agents@[2]@ == "Mozilla/5.0 (Macintosh; Intel Mac OS X 14_0) AppleWebKit/605.1.15"@,
            c.proxies@.len() == 0,
            c.request_delay_ms == 0,
            c.max_retries == 8,
    {
        let mut user_agents: Vec<String> = Vec::new();
        user_agents.push("Mozilla/5.0 (Windows NT 10.0; Win64; x64) AppleWebKit/537.36".to_owned());
        user_agents.push("Mozilla/5.0 (X11; Linux x86_64) AppleWebKit/537.36".to_owned());
        user_agents.push("Mozilla/5.0 (Macintosh; Intel Mac OS X 14_0) AppleWebKit/605.1.15".to_owned());
        Config {
            db_path: "idm_state.sqlite".to_owned(),
            download_dir: "downloads".to_owned(),
            max_connections: 32,
            base_connections: 8,
            min_connections: 2,
            chunk_size_mb: 8,
            user_agents,
            proxies: Vec::new(),
            request_delay_ms: 0,
            max_retries: 8,
        }
    }
}

impl Config {
    /// The chunk size in bytes fits in a `u64`.
    pub open spec fn chunk_size_fits(&self) -> bool {
        self.chunk_size_mb * MIB <= u64::MAX
    }

    /// The configured chunk size in bytes.
    pub fn chunk_size_bytes(&self) -> (bytes: u64)
        requires
            self.chunk_size_fits(),
        ensures
            bytes == self.chunk_size_mb * MIB,
    {
        self.chunk_size_mb * 1024 * 1024
    }
}

} // verus!
