use idm_rs::config::Config;
use idm_rs::models::{ChunkStatus, TaskStatus};

#[test]
fn status_names() {
    assert_eq!(TaskStatus::Queued.as_str(), "queued");
    assert_eq!(TaskStatus::Running.as_str(), "running");
    assert_eq!(TaskStatus::Paused.as_str(), "paused");
    assert_eq!(TaskStatus::Completed.as_str(), "completed");
    assert_eq!(TaskStatus::Failed.as_str(), "failed");
}

#[test]
fn status_names_are_distinct() {
    let all = [TaskStatus::Queued, TaskStatus::Running, TaskStatus::Paused, TaskStatus::Completed, TaskStatus::Failed];
    for a in all {
        for b in all {
            assert_eq!(a.as_str() == b.as_str(), a == b);
        }
    }
}

#[test]
fn default_config_values() {
    let c = Config::default();
    assert_eq!(c.db_path, "idm_state.sqlite");
    assert_eq!(c.download_dir, "downloads");
    assert_eq!(c.max_connections, 32);
    assert_eq!(c.base_connections, 8);
    assert_eq!(c.min_connections, 2);
    assert_eq!(c.chunk_size_mb, 8);
    assert_eq!(c.user_agents.len(), 3);
    assert_eq!(c.user_agents[1], "Mozilla/5.0 (X11; Linux x86_64) AppleWebKit/537.36");
    assert!(c.proxies.is_empty());
    assert_eq!(c.request_delay_ms, 0);
    assert_eq!(c.max_retries, 8);
}

#[test]
fn chunk_size_in_bytes() {
    let c = Config::default();
    assert_eq!(c.chunk_size_bytes(), 8 * 1024 * 1024);
    let mut c = Config::default();
    c.chunk_size_mb = 0;
    assert_eq!(c.chunk_size_bytes(), 0);
}

#[test]
fn chunk_status_names() {
    use_chunk_status();
}

fn use_chunk_status() {
    assert_eq!(ChunkStatus::Queued.as_str(), "queued");
    assert_eq!(ChunkStatus::Downloading.as_str(), "downloading");
    assert_eq!(ChunkStatus::Done.as_str(), "done");
    assert_eq!(ChunkStatus::Failed.as_str(), "failed");
}
