//! The state of the application between two events: which view is up, which
//! drive is selected, whether a scan runs, and the tree of the last scan.

use vstd::prelude::*;
use vstd::view::View as _;
use crate::drives::{drive_views, find_drive, path_of};
use crate::tree::{optional_view, Directory, DirectoryView};

verus! {

/// The views of the application.
#[derive(Debug, Clone, Copy, PartialEq, Eq)]
pub enum View {
    /// The choice of a drive, with the buttons to scan and to cancel.
    Start,
    /// The contents of the directory that was scanned.
    DirectoryDisplay,
}

impl Default for View {
    fn default() -> (view: View)
        ensures
            view == View::Start,
    {
        View::Start
    }
}

/// What happened in the application.
#[derive(Debug)]
pub enum ApplicationEvent {
    DropdownSelected,
    DriveSelected(String),
    RequestedScan,
    RequestedCancel,
    Start,
    ScanFinished(Directory),
    IcedEvent,
}

/// What an `ApplicationEvent` stands for.
pub enum ApplicationEventView {
    DropdownSelected,
    DriveSelected(Seq<char>),
    RequestedScan,
    RequestedCancel,
    Start,
    ScanFinished(DirectoryView),
    IcedEvent,
}

impl vstd::view::View for ApplicationEvent {
    type V = ApplicationEventView;

    open spec fn view(&self) -> ApplicationEventView {
        match self {
            ApplicationEvent::DropdownSelected => ApplicationEventView::DropdownSelected,
            ApplicationEvent::DriveSelected(drive) => ApplicationEventView::DriveSelected(drive@),
            ApplicationEvent::RequestedScan => ApplicationEventView::RequestedScan,
            ApplicationEvent::RequestedCancel => ApplicationEventView::RequestedCancel,
            ApplicationEvent::Start => ApplicationEventView::Start,
            ApplicationEvent::ScanFinished(dir) => ApplicationEventView::ScanFinished(dir@),
            ApplicationEvent::IcedEvent => ApplicationEventView::IcedEvent,
        }
    }
}

/// What the application is to do after an event.
#[derive(Debug)]
pub enum Command {
    /// Nothing.
    Idle,
    /// Start a scan of the directory at this path, with a new signal.
    Scan(String),
    /// Fire the signal of the scan that runs.
    Cancel,
}

/// What a `Command` stands for.
pub enum CommandView {
    Idle,
    Scan(Seq<char>),
    Cancel,
}

impl vstd::view::View for Command {
    type V = CommandView;

    open spec fn view(&self) -> CommandView {
        match self {
            Command::Idle => CommandView::Idle,
            Command::Scan(path) => CommandView::Scan(path@),
            Command::Cancel => CommandView::Cancel,
        }
    }
}

/// What a `GUI` stands for.
pub struct GUIView {
    pub view: View,
    pub dir: DirectoryView,
    pub scan_finished: bool,
    pub cancel_armed: bool,
    pub paths: Seq<(Seq<char>, Seq<char>)>,
    pub scanning: bool,
    pub pressed_cancel: bool,
    pub selected_drive: Option<Seq<char>>,
}

impl GUIView {
    /// The path to scan when a scan is requested: that of the selected
    /// drive, where a drive is selected and has a path.
    pub open spec fn scan_target(self) -> Option<Seq<char>> {
        match self.selected_drive {
            Some(drive) => path_of(self.paths, drive),
            None => None,
        }
    }

    /// The state after `event`.
    pub open spec fn updated(self, event: ApplicationEventView) -> Self {
        match event {
            ApplicationEventView::DriveSelected(drive) => GUIView {
                selected_drive: Some(drive),
                ..self
            },
            ApplicationEventView::RequestedScan => GUIView {
                scanning: true,
                pressed_cancel: false,
                cancel_armed: self.cancel_armed || self.scan_target().is_some(),
                ..self
            },
            ApplicationEventView::RequestedCancel => GUIView {
                pressed_cancel: true,
                scanning: false,
                ..self
            },
            ApplicationEventView::ScanFinished(dir) => GUIView {
                cancel_armed: false,
                scan_finished: true,
                dir: dir,
                view: View::DirectoryDisplay,
                ..self
            },
            _ => self,
        }
    }

    /// What is to be done after `event`: a scan where one is requested and a
    /// drive with a path is selected, a cancellation where one is requested
    /// and a signal is armed, and nothing otherwise.
    pub open spec fn command(self, event: ApplicationEventView) -> CommandView {
        match event {
            ApplicationEventView::RequestedScan => match self.scan_target() {
                Some(path) => CommandView::Scan(path),
                None => CommandView::Idle,
            },
            ApplicationEventView::RequestedCancel => if self.cancel_armed {
                CommandView::Cancel
            } else {
                CommandView::Idle
            },
            _ => CommandView::Idle,
        }
    }
}

/// The state of the application.
#[derive(Debug)]
pub struct GUI {
    view: View,
    dir: Directory,
    scan_finished: bool,
    cancel_armed: bool,
    paths: Vec<(String, String)>,
    scanning: bool,
    pressed_cancel: bool,
    selected_drive: Option<String>,
}

impl vstd::view::View for GUI {
    type V = GUIView;

    closed spec fn view(&self) -> GUIView {
        GUIView {
            view: self.view,
            dir: self.dir@,
            scan_finished: self.scan_finished,
            cancel_armed: self.cancel_armed,
            paths: drive_views(self.paths@),
            scanning: self.scanning,
            pressed_cancel: self.pressed_cancel,
            selected_drive: optional_view(self.selected_drive),
        }
    }
}

impl GUI {
    /// The application at its start, on a machine with the drives `paths`:
    /// the start view is up, no drive is selected and no scan runs.
    pub fn new(paths: Vec<(String, String)>) -> (app: GUI)
        ensures
            app@ == (GUIView {
                view: View::Start,
                dir: DirectoryView::blank(Seq::empty(), None, Seq::empty()),
                scan_finished: false,
                cancel_armed: false,
                paths: drive_views(paths@),
                scanning: false,
                pressed_cancel: false,
                selected_drive: None,
            }),
    {
        GUI {
            view: View::Start,
            dir: Directory::default(),
            scan_finished: false,
            cancel_armed: false,
            paths: paths,
            scanning: false,
            pressed_cancel: false,
            selected_drive: None,
        }
    }

    /// The view that is up.
    pub fn current_view(&self) -> (view: View)
        ensures
            view == self@.view,
    {
        self.view
    }

    /// The tree of the last scan that finished.
    pub fn get_dir(&self) -> (dir: &Directory)
        ensures
            dir@ == self@.dir,
    {
        &self.dir
    }

    /// The drives of the machine, each with its label and its root path.
    pub fn get_paths(&self) -> (paths: &Vec<(String, String)>)
        ensures
            drive_views(paths@) == self@.paths,
    {
        &self.paths
    }

    /// The label of the drive that is selected.
    pub fn get_selected_drive(&self) -> (drive: &Option<String>)
        ensures
            optional_view(*drive) == self@.selected_drive,
    {
        &self.selected_drive
    }

    /// Whether a scan runs, so that a cancellation can be asked for and no
    /// other scan.
    pub fn is_scanning(&self) -> (scanning: bool)
        ensures
            scanning == self@.scanning,
    {
        self.scanning
    }

    /// Whether a scan has finished.
    pub fn is_scan_finished(&self) -> (finished: bool)
        ensures
            finished == self@.scan_finished,
    {
        self.scan_finished
    }

    /// Whether the last request was a cancellation.
    pub fn has_pressed_cancel(&self) -> (pressed: bool)
        ensures
            pressed == self@.pressed_cancel,
    {
        self.pressed_cancel
    }

    /// Whether a signal is armed that a cancellation can fire.
    pub fn is_cancel_armed(&self) -> (armed: bool)
        ensures
            armed == self@.cancel_armed,
    {
        self.cancel_armed
    }

    /// The title of the application.
    pub fn title(&self) -> (title: String)
        ensures
            title@ == "Disk Analyzer"@,
    {
        "Disk Analyzer".to_string()
    }

    /// The state after `event`, and what is to be done.
    pub fn update(self, event: ApplicationEvent) -> (next: (GUI, Command))
        ensures
            next.0@ == self@.updated(event@),
            next.1@ == self@.command(event@),
    {
        match event {
            ApplicationEvent::DriveSelected(drive) => (
                GUI { selected_drive: Some(drive), ..self },
                Command::Idle,
            ),
            ApplicationEvent::RequestedScan => {
                let target = match &self.selected_drive {
                    Some(drive) => find_drive(&self.paths, drive),
                    None => None,
                };
                match target {
                    Some(path) => (
                        GUI { scanning: true, pressed_cancel: false, cancel_armed: true, ..self },
                        Command::Scan(path),
                    ),
                    None => (
                        GUI { scanning: true, pressed_cancel: false, ..self },
                        Command::Idle,
                    ),
                }
            },
            ApplicationEvent::RequestedCancel => {
                let command = if self.cancel_armed {
                    Command::Cancel
                } else {
                    Command::Idle
                };
                (GUI { pressed_cancel: true, scanning: false, ..self }, command)
            },
            ApplicationEvent::ScanFinished(dir) => (
                GUI {
                    cancel_armed: false,
                    scan_finished: true,
                    dir: dir,
                    view: View::DirectoryDisplay,
                    ..self
                },
                Command::Idle,
            ),
            _ => (self, Command::Idle),
        }
    }
}

} // verus!
