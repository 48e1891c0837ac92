use mjml_templates::app_state::{AppState, Lookup};
use mjml_templates::template_watcher::{
    watch_templates, CacheAction, Debouncer, FsEvent, FsEventKind, WatchInput, WatchOutput,
};

const ROOT: &str = "/srv/templates";

/// Stands for the disk: the files by path.
struct Disk {
    files: Vec<(String, String)>,
    reads: usize,
}

impl Disk {
    fn new() -> Disk {
        Disk { files: Vec::new(), reads: 0 }
    }

    fn write(&mut self, path: &str, content: &str) {
        self.delete(path);
        self.files.push((path.to_string(), content.to_string()));
    }

    fn delete(&mut self, path: &str) {
        self.files.retain(|(p, _)| p != path);
    }

    fn read(&mut self, path: &str) -> Result<String, String> {
        self.reads += 1;
        match self.files.iter().find(|(p, _)| p == path) {
            Some((_, content)) => Ok(content.clone()),
            None => Err("No such file or directory (os error 2)".to_string()),
        }
    }
}

struct Server {
    state: AppState,
    debouncer: Debouncer,
    disk: Disk,
    now: u64,
}

impl Server {
    fn new(capacity: usize) -> Server {
        Server {
            state: AppState::new(capacity, ROOT.to_string()),
            debouncer: Debouncer::new(),
            disk: Disk::new(),
            now: 0,
        }
    }

    fn notified(&mut self, kind: FsEventKind, path: &str) {
        self.now += 1;
        let event = FsEvent { kind, paths: vec![path.to_string()] };
        let output =
            watch_templates("/", ROOT, &mut self.debouncer, WatchInput::Notified { event });
        assert_eq!(output, WatchOutput::DrainAfter { delay_ms: 200 });
    }

    fn drain_due(&mut self) -> usize {
        self.now += 200;
        let actions = match watch_templates("/", ROOT, &mut self.debouncer, WatchInput::DrainDue)
        {
            WatchOutput::Apply { actions } => actions,
            other => panic!("a drain must hand out actions, not {:?}", other),
        };
        let count = actions.len();
        for action in actions {
            match action {
                CacheAction::Reload { key, source } => {
                    let read = self.disk.read(&source);
                    let _ = self.state.reload_template(&key, read, self.now);
                }
                CacheAction::Evict { key } => {
                    let _ = self.state.remove_template_from_cache(&key);
                }
                CacheAction::Skip { .. } => {}
            }
        }
        count
    }

    fn get_or_load(&mut self, key: &str) -> Result<String, String> {
        self.now += 1;
        match self.state.get_template(key, self.now) {
            Lookup::Hit { content } => Ok(content),
            Lookup::Miss { file } => {
                let read = self.disk.read(&file);
                self.state.load_template(key, read, self.now)
            }
        }
    }
}

#[test]
fn created_file_is_served_from_the_cache() {
    let mut server = Server::new(10);
    server.disk.write("/srv/templates/x.mjml", "<mjml>hello</mjml>");
    server.notified(FsEventKind::Create, "/srv/templates/x.mjml");
    assert_eq!(server.drain_due(), 1);
    assert_eq!(server.disk.reads, 1);
    assert_eq!(server.get_or_load("x.mjml"), Ok("<mjml>hello</mjml>".to_string()));
    assert_eq!(server.disk.reads, 1);
}

#[test]
fn deleted_file_is_gone_from_the_cache() {
    let mut server = Server::new(10);
    server.disk.write("/srv/templates/x.mjml", "<mjml>hello</mjml>");
    assert_eq!(server.get_or_load("x.mjml"), Ok("<mjml>hello</mjml>".to_string()));
    server.disk.delete("/srv/templates/x.mjml");
    server.notified(FsEventKind::Remove, "/srv/templates/x.mjml");
    assert_eq!(server.drain_due(), 1);
    assert_eq!(server.state.len(), 0);
    assert_eq!(
        server.get_or_load("x.mjml"),
        Err("Failed to read template file /srv/templates/x.mjml: \
             No such file or directory (os error 2)"
            .to_string())
    );
    assert_eq!(server.state.len(), 0);
}

#[test]
fn modified_file_is_refreshed_in_the_cache() {
    let mut server = Server::new(10);
    server.disk.write("/srv/templates/x.mjml", "one");
    assert_eq!(server.get_or_load("x.mjml"), Ok("one".to_string()));
    server.disk.write("/srv/templates/x.mjml", "two");
    assert_eq!(server.get_or_load("x.mjml"), Ok("one".to_string()));
    server.notified(FsEventKind::Modify, "/srv/templates/x.mjml");
    server.notified(FsEventKind::Modify, "/srv/templates/x.mjml");
    server.notified(FsEventKind::Modify, "/srv/templates/x.mjml");
    let reads = server.disk.reads;
    assert_eq!(server.drain_due(), 1);
    assert_eq!(server.disk.reads, reads + 1);
    assert_eq!(server.drain_due(), 0);
    assert_eq!(server.drain_due(), 0);
    assert_eq!(server.disk.reads, reads + 1);
    assert_eq!(server.get_or_load("x.mjml"), Ok("two".to_string()));
    assert_eq!(server.disk.reads, reads + 1);
}

#[test]
fn refresh_that_cannot_read_keeps_the_stale_entry() {
    let mut server = Server::new(10);
    server.disk.write("/srv/templates/x.mjml", "one");
    assert_eq!(server.get_or_load("x.mjml"), Ok("one".to_string()));
    server.disk.delete("/srv/templates/x.mjml");
    server.notified(FsEventKind::Modify, "/srv/templates/x.mjml");
    assert_eq!(server.drain_due(), 1);
    assert_eq!(server.get_or_load("x.mjml"), Ok("one".to_string()));
}

#[test]
fn change_outside_the_root_leaves_the_cache_alone() {
    let mut server = Server::new(10);
    server.disk.write("/srv/templates/x.mjml", "one");
    assert_eq!(server.get_or_load("x.mjml"), Ok("one".to_string()));
    server.notified(FsEventKind::Remove, "/srv/elsewhere/x.mjml");
    assert_eq!(server.drain_due(), 1);
    assert_eq!(server.state.len(), 1);
    assert_eq!(server.get_or_load("x.mjml"), Ok("one".to_string()));
}

#[test]
fn create_then_delete_within_one_window_leaves_no_entry() {
    let mut server = Server::new(10);
    server.disk.write("/srv/templates/x.mjml", "one");
    server.notified(FsEventKind::Create, "/srv/templates/x.mjml");
    server.disk.delete("/srv/templates/x.mjml");
    server.notified(FsEventKind::Remove, "/srv/templates/x.mjml");
    assert_eq!(server.drain_due(), 1);
    assert_eq!(server.disk.reads, 0);
    assert_eq!(server.state.len(), 0);
}
