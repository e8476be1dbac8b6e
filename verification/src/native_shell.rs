use vstd::prelude::*;
use crate::app_core::{IngestResult, RuleSummary, RunSummary};
use crate::text::{concat, decimal, decimal_string, owned};

verus! {

/// The tab the native window shows.
#[derive(PartialEq, Eq, Structural, Clone, Copy, Debug)]
pub enum Tab {
    Runs,
    Rules,
}

/// The state of the native window: whether the runtime has started, what it shows and
/// what it last heard.
pub struct ShellState {
    /// The runtime has started.
    pub ready: bool,
    pub active_tab: Tab,
    pub boot_error: Option<String>,
    /// The status line.
    pub status: String,
    /// Files are being dragged over the window.
    pub drop_hovering: bool,
    /// An ingest is under way.
    pub busy: bool,
    pub runs: Vec<RunSummary>,
    pub rules: Vec<RuleSummary>,
    pub last_ingested: Vec<IngestResult>,
}

/// The model of `ShellState`, with text as characters and lists as sequences.
pub struct ShellView {
    pub ready: bool,
    pub active_tab: Tab,
    pub boot_error: Option<Seq<char>>,
    pub status: Seq<char>,
    pub drop_hovering: bool,
    pub busy: bool,
    pub runs: Seq<RunSummary>,
    pub rules: Seq<RuleSummary>,
    pub last_ingested: Seq<IngestResult>,
}

impl View for ShellState {
    type V = ShellView;

    open spec fn view(&self) -> ShellView {
        ShellView {
            ready: self.ready,
            active_tab: self.active_tab,
            boot_error: match self.boot_error {
                Some(e) => Some(e@),
                None => None,
            },
            status: self.status@,
            drop_hovering: self.drop_hovering,
            busy: self.busy,
            runs: self.runs@,
            rules: self.rules@,
            last_ingested: self.last_ingested@,
        }
    }
}

/// What the window hears: the runtime's start, a press of Refresh, lists loaded, files
/// dragged and dropped, an ingest finished, a tab chosen.
pub enum ShellMessage {
    /// The runtime started, with its API port and base directory, or failed to.
    Bootstrapped(Result<(u16, String), String>),
    Refresh,
    RunsLoaded(Result<Vec<RunSummary>, String>),
    RulesLoaded(Result<Vec<RuleSummary>, String>),
    FileHovered,
    FilesHoveredLeft,
    /// A file was dropped on the window, at this path.
    FileDropped(String),
    /// Any other window event.
    OtherWindowEvent,
    IngestFinished(Result<Vec<IngestResult>, String>),
    TabSelected(Tab),
}

/// What the program does next for the window.
pub enum ShellAction {
    Nothing,
    /// Load the recent runs and the rules.
    LoadRunsAndRules,
    /// Ingest the dropped path.
    Ingest(String),
}

/// The status line once the runtime has started.
pub open spec fn ready_status(port: u16, base: Seq<char>) -> Seq<char> {
    "Ready - API http://127.0.0.1:"@ + decimal(port as nat) + " - "@ + base
}

/// Refreshing loads the lists once the runtime has started, and does nothing before.
pub open spec fn refresh_is(ready: bool, a: ShellAction) -> bool {
    if ready {
        a is LoadRunsAndRules
    } else {
        a is Nothing
    }
}

impl ShellState {
    /// The window as it opens: nothing loaded, the runs tab shown, an empty status.
    pub fn new() -> (r: ShellState)
        ensures
            r@ == (ShellView {
                ready: false,
                active_tab: Tab::Runs,
                boot_error: None,
                status: Seq::empty(),
                drop_hovering: false,
                busy: false,
                runs: Seq::empty(),
                rules: Seq::empty(),
                last_ingested: Seq::empty(),
            }),
    {
        let r = ShellState {
            ready: false,
            active_tab: Tab::Runs,
            boot_error: None,
            status: String::new(),
            drop_hovering: false,
            busy: false,
            runs: Vec::new(),
            rules: Vec::new(),
            last_ingested: Vec::new(),
        };
        proof {
            assert(r@.status =~= Seq::<char>::empty());
        }
        r
    }

    /// Takes in one message: the state it leaves and what the program does next.
    pub fn update(&mut self, message: ShellMessage) -> (action: ShellAction)
        ensures
            match message {
                ShellMessage::Bootstrapped(Ok((port, base))) => final(self)@ == (ShellView {
                    ready: true,
                    status: ready_status(port, base@),
                    ..old(self)@
                }) && action is LoadRunsAndRules,
                ShellMessage::Bootstrapped(Err(e)) => final(self)@ == (ShellView {
                    boot_error: Some(e@),
                    status: "Boot failed: "@ + e@,
                    ..old(self)@
                }) && action is Nothing,
                ShellMessage::Refresh => final(self)@ == old(self)@ && refresh_is(old(self).ready, action),
                ShellMessage::RunsLoaded(Ok(runs)) => final(self)@ == (ShellView { runs: runs@, ..old(self)@ })
                    && action is Nothing,
                ShellMessage::RunsLoaded(Err(e)) => final(self)@ == (ShellView {
                    status: "Failed to load runs: "@ + e@,
                    ..old(self)@
                }) && action is Nothing,
                ShellMessage::RulesLoaded(Ok(rules)) => final(self)@ == (ShellView { rules: rules@, ..old(self)@ })
                    && action is Nothing,
                ShellMessage::RulesLoaded(Err(e)) => final(self)@ == (ShellView {
                    status: "Failed to load rules: "@ + e@,
                    ..old(self)@
                }) && action is Nothing,
                ShellMessage::FileHovered => final(self)@ == (ShellView { drop_hovering: true, ..old(self)@ })
                    && action is Nothing,
                ShellMessage::FilesHoveredLeft => final(self)@ == (ShellView { drop_hovering: false, ..old(self)@ })
                    && action is Nothing,
                ShellMessage::FileDropped(p) => if old(self).ready {
                    final(self)@ == (ShellView {
                        drop_hovering: false,
                        busy: true,
                        status: "Processing 1 dropped item(s)..."@,
                        ..old(self)@
                    }) && (action matches ShellAction::Ingest(q) && q@ == p@)
                } else {
                    final(self)@ == (ShellView {
                        drop_hovering: false,
                        status: "Runtime is not ready yet"@,
                        ..old(self)@
                    }) && action is Nothing
                },
                ShellMessage::OtherWindowEvent => final(self)@ == old(self)@ && action is Nothing,
                ShellMessage::IngestFinished(Ok(results)) => final(self)@ == (ShellView {
                    busy: false,
                    status: "Processed "@ + decimal(results@.len()) + " file(s)"@,
                    last_ingested: results@,
                    ..old(self)@
                }) && refresh_is(old(self).ready, action),
                ShellMessage::IngestFinished(Err(e)) => final(self)@ == (ShellView {
                    busy: false,
                    status: "Ingest failed: "@ + e@,
                    ..old(self)@
                }) && action is Nothing,
                ShellMessage::TabSelected(t) => final(self)@ == (ShellView { active_tab: t, ..old(self)@ })
                    && action is Nothing,
            },
    {
        match message {
            ShellMessage::Bootstrapped(Ok((port, base))) => {
                let p = decimal_string(port as u128);
                let s1 = concat("Ready - API http://127.0.0.1:", p.as_str());
                let s2 = concat(s1.as_str(), " - ");
                self.status = concat(s2.as_str(), base.as_str());
                self.ready = true;
                self.refresh()
            },
            ShellMessage::Bootstrapped(Err(e)) => {
                self.status = concat("Boot failed: ", e.as_str());
                self.boot_error = Some(e);
                ShellAction::Nothing
            },
            ShellMessage::Refresh => self.refresh(),
            ShellMessage::RunsLoaded(Ok(runs)) => {
                self.runs = runs;
                ShellAction::Nothing
            },
            ShellMessage::RunsLoaded(Err(e)) => {
                self.status = concat("Failed to load runs: ", e.as_str());
                ShellAction::Nothing
            },
            ShellMessage::RulesLoaded(Ok(rules)) => {
                self.rules = rules;
                ShellAction::Nothing
            },
            ShellMessage::RulesLoaded(Err(e)) => {
                self.status = concat("Failed to load rules: ", e.as_str());
                ShellAction::Nothing
            },
            ShellMessage::FileHovered => {
                self.drop_hovering = true;
                ShellAction::Nothing
            },
            ShellMessage::FilesHoveredLeft => {
                self.drop_hovering = false;
                ShellAction::Nothing
            },
            ShellMessage::FileDropped(path) => {
                self.drop_hovering = false;
                if !self.ready {
                    self.status = owned("Runtime is not ready yet");
                    return ShellAction::Nothing;
                }
                self.busy = true;
                self.status = owned("Processing 1 dropped item(s)...");
                ShellAction::Ingest(path)
            },
            ShellMessage::OtherWindowEvent => ShellAction::Nothing,
            ShellMessage::IngestFinished(Ok(results)) => {
                self.busy = false;
                let n = decimal_string(results.len() as u128);
                let s1 = concat("Processed ", n.as_str());
                self.status = concat(s1.as_str(), " file(s)");
                self.last_ingested = results;
                self.refresh()
            },
            ShellMessage::IngestFinished(Err(e)) => {
                self.busy = false;
                self.status = concat("Ingest failed: ", e.as_str());
                ShellAction::Nothing
            },
            ShellMessage::TabSelected(t) => {
                self.active_tab = t;
                ShellAction::Nothing
            },
        }
    }

    /// Loads the lists when the runtime has started.
    fn refresh(&self) -> (action: ShellAction)
        ensures
            refresh_is(self.ready, action),
    {
        if self.ready {
            ShellAction::LoadRunsAndRules
        } else {
            ShellAction::Nothing
        }
    }
}

} // verus!
