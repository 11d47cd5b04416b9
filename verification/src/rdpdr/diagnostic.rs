//! A consumer that drives itself, to see whether device redirection works with
//! a client. Of a drive it walks the listing of the root to its end, reads the
//! start of the first file that it finds, and writes a small file of its own; to
//! a printer it sends a few bytes as a job. Each step is reported, and each entry
//! of the listing.

use vstd::prelude::*;
use vstd::slice::slice_subrange;
use vstd::string::*;

use crate::model;
use crate::model::Held;
use crate::rdpdr::irp;
use crate::rdpdr::pdu;
use crate::rdpdr::{DriveCommand, DriveCommandView, DriveConsumer};
use crate::render;
use crate::text;

verus! {

broadcast use model::lemma_views_push;

pub const LIST_ALL_PATTERN: &'static str = "\\*";

pub const ROOT_PATH: &'static str = "\\";

pub const SAMPLE_READ_LENGTH: u32 = 4096;

/// How much of a sample is shown.
pub const PREVIEW_LENGTH: usize = 200;

pub const WRITE_TEST_FILE_NAME: &'static str = "\\kmsrdp_rdpdr_selftest.tmp";

pub const WRITE_TEST_CONTENTS: &'static str = "kmsrdp RDPDR write self-test\n";

pub const PRINT_JOB_TEST_CONTENTS: &'static str = "kmsrdp RDPDR print job self-test\n";

/// The tags of the requests: what each of them is for.
pub const TAG_OPEN_ROOT: u64 = 1;

pub const TAG_LIST: u64 = 2;

pub const TAG_OPEN_SAMPLE: u64 = 3;

pub const TAG_READ_SAMPLE: u64 = 4;

pub const TAG_CLOSE_ROOT: u64 = 5;

pub const TAG_CLOSE_SAMPLE: u64 = 6;

pub const TAG_CREATE_WRITE_TEST: u64 = 7;

pub const TAG_WRITE_TEST: u64 = 8;

pub const TAG_CLOSE_WRITE_TEST: u64 = 9;

pub const TAG_OPEN_PRINT_JOB: u64 = 10;

pub const TAG_WRITE_PRINT_JOB: u64 = 11;

pub const TAG_CLOSE_PRINT_JOB: u64 = 12;

pub const READ_ACCESS: u32 = irp::GENERIC_READ | irp::SYNCHRONIZE;

pub const WRITE_ACCESS: u32 = irp::GENERIC_WRITE | irp::SYNCHRONIZE;

pub const DIRECTORY_OPTIONS: u32 = irp::FILE_DIRECTORY_FILE | irp::FILE_SYNCHRONOUS_IO_NONALERT;

/// Is told of each step.
pub trait EventListener: Send {
    fn on_event(&mut self, message: String);
}

/// A listener is told this.
pub open spec fn told<L: EventListener + ?Sized>(l: &mut L, message: String) -> bool {
    call_ensures(L::on_event, (l, message), ())
}

fn notify<L: EventListener + ?Sized>(listener: &mut L, message: String)
    ensures
        exists|l: &mut L|
            &*l == &*old(listener) && &*final(l) == &*final(listener) && #[trigger] told(
                l,
                message,
            ),
{
    let ghost said = message;
    listener.on_event(message);
    assert(forall|l: &mut L| #[trigger] call_ensures(L::on_event, (l, said), ()) ==> told(l, said));
}

/// What the test knows: its device, and the files that it has open.
pub struct SelfTestView {
    pub device_id: u32,
    pub root: Option<u32>,
    pub sample: Option<u32>,
    pub sampled: bool,
    pub write_test: Option<u32>,
    pub print_job: Option<u32>,
}

/// What the test does next: what it then knows, what it reports, and the
/// requests that it wants.
pub struct Step {
    pub after: SelfTestView,
    pub report: Option<Seq<char>>,
    pub wants: Seq<DriveCommandView>,
}

pub struct DirectoryListingSelfTest {
    listener: Held<Box<dyn EventListener>>,
    device_id: u32,
    root_file_id: Option<u32>,
    sample_file_id: Option<u32>,
    sampled_a_file: bool,
    write_test_file_id: Option<u32>,
    print_job_file_id: Option<u32>,
}

impl View for DirectoryListingSelfTest {
    type V = SelfTestView;

    closed spec fn view(&self) -> SelfTestView {
        SelfTestView {
            device_id: self.device_id,
            root: self.root_file_id,
            sample: self.sample_file_id,
            sampled: self.sampled_a_file,
            write_test: self.write_test_file_id,
            print_job: self.print_job_file_id,
        }
    }
}

/// Whether what was done and returned is the step.
pub open spec fn takes(
    step: Step,
    after: SelfTestView,
    report: Option<String>,
    wants: Seq<DriveCommand>,
) -> bool {
    &&& after == step.after
    &&& model::opt_view(report) == step.report
    &&& model::views(wants) == step.wants
}

/// A step that changes nothing and says nothing.
pub open spec fn idle(s: SelfTestView) -> Step {
    Step { after: s, report: None, wants: seq![] }
}

/// A step that only reports a status.
pub open spec fn reports_status(s: SelfTestView, before: Seq<char>, status: u32, after: Seq<char>) -> Step {
    Step { after: s, report: Some(before + render::hex32(status) + after), wants: seq![] }
}

pub open spec fn open_command(
    device_id: u32,
    path: Seq<char>,
    desired_access: u32,
    create_disposition: u32,
    create_options: u32,
    request_tag: u64,
) -> DriveCommandView {
    DriveCommandView::Create {
        device_id,
        path,
        desired_access,
        create_disposition,
        create_options,
        request_tag,
    }
}

/// A device is there: a job is opened on a printer, and on anything else the
/// root and a file to write to.
pub open spec fn ready_step(
    s: SelfTestView,
    device_id: u32,
    device_type: u32,
    dos_name: Seq<char>,
) -> Step {
    let after = SelfTestView { device_id, ..s };
    if device_type == pdu::RDPDR_DTYP_PRINT {
        Step {
            after,
            report: Some(
                "printer "@ + render::decimal(device_id as nat) + " ("@ + dos_name
                    + ") ready - opening a test print job"@,
            ),
            wants: seq![
                open_command(
                    device_id,
                    seq![],
                    WRITE_ACCESS,
                    irp::FILE_OVERWRITE_IF,
                    irp::FILE_SYNCHRONOUS_IO_NONALERT,
                    TAG_OPEN_PRINT_JOB,
                ),
            ],
        }
    } else {
        Step {
            after,
            report: Some(
                "device "@ + render::decimal(device_id as nat) + " ("@ + dos_name
                    + ") ready - opening root directory"@,
            ),
            wants: seq![
                open_command(
                    device_id,
                    ROOT_PATH@,
                    READ_ACCESS,
                    irp::FILE_OPEN,
                    DIRECTORY_OPTIONS,
                    TAG_OPEN_ROOT,
                ),
                open_command(
                    device_id,
                    WRITE_TEST_FILE_NAME@,
                    WRITE_ACCESS,
                    irp::FILE_OVERWRITE_IF,
                    irp::FILE_SYNCHRONOUS_IO_NONALERT,
                    TAG_CREATE_WRITE_TEST,
                ),
            ],
        }
    }
}

/// A file was opened to be written to: the contents go into it.
pub open spec fn writing_step(
    after: SelfTestView,
    what: Seq<char>,
    file_id: u32,
    contents: Seq<u8>,
    request_tag: u64,
) -> Step {
    Step {
        after,
        report: Some(
            what + render::decimal(file_id as nat) + ") - writing "@ + render::decimal(
                contents.len(),
            ) + " bytes"@,
        ),
        wants: seq![
            DriveCommandView::Write {
                device_id: after.device_id,
                file_id,
                offset: 0,
                data: contents,
                request_tag,
            },
        ],
    }
}

/// A file was opened, or not.
pub open spec fn create_step(
    s: SelfTestView,
    request_tag: u64,
    result: Result<irp::CreateReply, u32>,
) -> Step {
    if request_tag == TAG_OPEN_ROOT {
        match result {
            Ok(reply) => Step {
                after: SelfTestView { root: Some(reply.file_id), ..s },
                report: Some("root directory opened - listing entries"@),
                wants: seq![
                    DriveCommandView::QueryDirectory {
                        device_id: s.device_id,
                        file_id: reply.file_id,
                        path: Some(LIST_ALL_PATTERN@),
                        request_tag: TAG_LIST,
                    },
                ],
            },
            Err(status) => reports_status(
                s,
                "failed to open root directory: NTSTATUS "@,
                status,
                seq![],
            ),
        }
    } else if request_tag == TAG_OPEN_SAMPLE {
        match result {
            Ok(reply) => Step {
                after: SelfTestView { sample: Some(reply.file_id), ..s },
                report: Some(
                    "sample file opened (FileId "@ + render::decimal(reply.file_id as nat)
                        + ") - reading first "@ + render::decimal(SAMPLE_READ_LENGTH as nat)
                        + " bytes"@,
                ),
                wants: seq![
                    DriveCommandView::Read {
                        device_id: s.device_id,
                        file_id: reply.file_id,
                        length: SAMPLE_READ_LENGTH,
                        offset: 0,
                        request_tag: TAG_READ_SAMPLE,
                    },
                ],
            },
            Err(status) => reports_status(
                s,
                "failed to open sample file: NTSTATUS "@,
                status,
                seq![],
            ),
        }
    } else if request_tag == TAG_CREATE_WRITE_TEST {
        match result {
            Ok(reply) => writing_step(
                SelfTestView { write_test: Some(reply.file_id), ..s },
                "write-test file created (FileId "@,
                reply.file_id,
                WRITE_TEST_CONTENTS.spec_bytes(),
                TAG_WRITE_TEST,
            ),
            Err(status) => reports_status(
                s,
                "failed to create write-test file: NTSTATUS "@,
                status,
                seq![],
            ),
        }
    } else if request_tag == TAG_OPEN_PRINT_JOB {
        match result {
            Ok(reply) => writing_step(
                SelfTestView { print_job: Some(reply.file_id), ..s },
                "print job opened (FileId "@,
                reply.file_id,
                PRINT_JOB_TEST_CONTENTS.spec_bytes(),
                TAG_WRITE_PRINT_JOB,
            ),
            Err(status) => reports_status(
                s,
                "failed to open print job: NTSTATUS "@,
                status,
                seq![],
            ),
        }
    } else {
        idle(s)
    }
}

/// The name of a directory in itself: the directory, or the one above it.
pub open spec fn is_dots(name: Seq<char>) -> bool {
    name == seq!['.'] || name == seq!['.', '.']
}

pub open spec fn entry_report(entry: irp::DirectoryEntryView) -> Seq<char> {
    "entry: "@ + entry.file_name + (if entry.file_attributes & irp::FILE_ATTRIBUTE_DIRECTORY != 0 {
        " (dir, "@
    } else {
        " (file, "@
    }) + render::signed_decimal(entry.end_of_file as int) + " bytes)"@
}

/// The request for the next entry of the root, where it is open.
pub open spec fn next_entry(s: SelfTestView) -> Seq<DriveCommandView> {
    match s.root {
        Some(file_id) => seq![
            DriveCommandView::QueryDirectory {
                device_id: s.device_id,
                file_id,
                path: None,
                request_tag: TAG_LIST,
            },
        ],
        None => seq![],
    }
}

/// An entry of the root: the first file is opened, and the listing goes on after
/// it as after anything else; at its end the root is closed.
pub open spec fn listing_step(
    s: SelfTestView,
    request_tag: u64,
    result: Result<Option<irp::DirectoryEntryView>, u32>,
) -> Step {
    if request_tag != TAG_LIST {
        idle(s)
    } else {
        match result {
            Ok(Some(entry)) => if entry.file_attributes & irp::FILE_ATTRIBUTE_DIRECTORY == 0
                && !s.sampled && !is_dots(entry.file_name) {
                Step {
                    after: SelfTestView { sampled: true, ..s },
                    report: Some(entry_report(entry)),
                    wants: seq![
                        open_command(
                            s.device_id,
                            ROOT_PATH@ + entry.file_name,
                            READ_ACCESS,
                            irp::FILE_OPEN,
                            irp::FILE_SYNCHRONOUS_IO_NONALERT,
                            TAG_OPEN_SAMPLE,
                        ),
                    ] + next_entry(s),
                }
            } else {
                Step { after: s, report: Some(entry_report(entry)), wants: next_entry(s) }
            },
            Ok(None) => closing_step(
                SelfTestView { root: None, ..s },
                "directory listing complete"@,
                s.root,
                TAG_CLOSE_ROOT,
            ),
            Err(status) => reports_status(s, "directory query failed: NTSTATUS "@, status, seq![]),
        }
    }
}

/// A file is done with: it is closed, where it is open.
pub open spec fn closing_step(
    after: SelfTestView,
    report: Seq<char>,
    file_id: Option<u32>,
    request_tag: u64,
) -> Step {
    Step {
        after,
        report: Some(report),
        wants: match file_id {
            Some(file_id) => seq![
                DriveCommandView::Close { device_id: after.device_id, file_id, request_tag },
            ],
            None => seq![],
        },
    }
}

/// The first bytes of what was read, as text.
pub open spec fn preview(data: Seq<u8>) -> Seq<char> {
    text::readable(
        data.subrange(
            0,
            if data.len() < PREVIEW_LENGTH {
                data.len() as int
            } else {
                PREVIEW_LENGTH as int
            },
        ),
    )
}

/// The start of the sample was read, or not: either way it is closed.
pub open spec fn read_step(s: SelfTestView, request_tag: u64, result: Result<Seq<u8>, u32>) -> Step {
    if request_tag != TAG_READ_SAMPLE {
        idle(s)
    } else {
        closing_step(
            SelfTestView { sample: None, ..s },
            match result {
                Ok(data) => "read "@ + render::decimal(data.len())
                    + " bytes from sample file - preview: "@ + render::quoted(preview(data)),
                Err(status) => "sample file read failed: NTSTATUS "@ + render::hex32(status),
            },
            s.sample,
            TAG_CLOSE_SAMPLE,
        )
    }
}

/// Something was written, or not: either way the file is closed.
pub open spec fn write_step(s: SelfTestView, request_tag: u64, result: Result<u32, u32>) -> Step {
    if request_tag == TAG_WRITE_TEST {
        closing_step(
            SelfTestView { write_test: None, ..s },
            match result {
                Ok(n) => "wrote "@ + render::decimal(n as nat) + " bytes to write-test file"@,
                Err(status) => "write-test write failed: NTSTATUS "@ + render::hex32(status),
            },
            s.write_test,
            TAG_CLOSE_WRITE_TEST,
        )
    } else if request_tag == TAG_WRITE_PRINT_JOB {
        closing_step(
            SelfTestView { print_job: None, ..s },
            match result {
                Ok(n) => "wrote "@ + render::decimal(n as nat) + " bytes to print job"@,
                Err(status) => "print job write failed: NTSTATUS "@ + render::hex32(status),
            },
            s.print_job,
            TAG_CLOSE_PRINT_JOB,
        )
    } else {
        idle(s)
    }
}

/// A file was closed.
pub open spec fn close_step(s: SelfTestView, request_tag: u64, status: u32) -> Step {
    if request_tag == TAG_CLOSE_ROOT {
        reports_status(s, "root directory closed (status "@, status, ")"@)
    } else if request_tag == TAG_CLOSE_SAMPLE {
        reports_status(s, "sample file closed (status "@, status, ") - self-test complete"@)
    } else if request_tag == TAG_CLOSE_WRITE_TEST {
        reports_status(s, "write-test file closed (status "@, status, ")"@)
    } else if request_tag == TAG_CLOSE_PRINT_JOB {
        reports_status(s, "print job closed (status "@, status, ") - print self-test complete"@)
    } else {
        idle(s)
    }
}

fn with_status(before: &str, status: u32, after: &str) -> (s: String)
    ensures
        s@ == before@ + render::hex32(status) + after@,
{
    let mut s: String = before.to_owned();
    render::push_hex32(&mut s, status);
    s.append(after);
    s
}

fn with_status_last(before: &str, status: u32) -> (s: String)
    ensures
        s@ == before@ + render::hex32(status),
        s@ == before@ + render::hex32(status) + Seq::<char>::empty(),
{
    let mut s: String = before.to_owned();
    render::push_hex32(&mut s, status);
    assert(s@ =~= before@ + render::hex32(status) + Seq::<char>::empty());
    s
}

fn nothing() -> (v: Vec<DriveCommand>)
    ensures
        model::views(v@) == Seq::<DriveCommandView>::empty(),
{
    let v: Vec<DriveCommand> = Vec::new();
    assert(model::views(v@) =~= seq![]);
    v
}

fn only(command: DriveCommand) -> (v: Vec<DriveCommand>)
    ensures
        model::views(v@) == seq![command@],
{
    let mut v: Vec<DriveCommand> = Vec::new();
    v.push(command);
    assert(model::views(v@) =~= seq![command@]);
    v
}

fn text_bytes(s: &str) -> (v: Vec<u8>)
    ensures
        v@ == s.spec_bytes(),
{
    vstd::slice::slice_to_vec(s.as_bytes())
}

fn names_dots(name: &str) -> (r: bool)
    ensures
        r == is_dots(name@),
{
    let n: usize = name.unicode_len();
    let r: bool = if n == 1 {
        name.get_char(0) == '.'
    } else if n == 2 {
        name.get_char(0) == '.' && name.get_char(1) == '.'
    } else {
        false
    };
    proof {
        if r && n == 1 {
            assert(name@ =~= seq!['.']);
        }
        if r && n == 2 {
            assert(name@ =~= seq!['.', '.']);
        }
    }
    r
}

fn describe(entry: &irp::DirectoryEntry) -> (s: String)
    ensures
        s@ == entry_report(entry@),
{
    let mut s: String = "entry: ".to_owned();
    s.append(entry.file_name.as_str());
    if entry.file_attributes & irp::FILE_ATTRIBUTE_DIRECTORY != 0 {
        s.append(" (dir, ");
    } else {
        s.append(" (file, ");
    }
    render::push_signed(&mut s, entry.end_of_file);
    s.append(" bytes)");
    s
}

impl DirectoryListingSelfTest {
    pub fn new(listener: Box<dyn EventListener>) -> (r: Self)
        ensures
            r@ == (SelfTestView {
                device_id: 0,
                root: None,
                sample: None,
                sampled: false,
                write_test: None,
                print_job: None,
            }),
            r.listening() == &listener,
    {
        let held = Held { value: listener };
        Self {
            listener: held,
            device_id: 0,
            root_file_id: None,
            sample_file_id: None,
            sampled_a_file: false,
            write_test_file_id: None,
            print_job_file_id: None,
        }
    }

    /// The listener that the test reports to, as it is.
    pub closed spec fn listening(&self) -> &Box<dyn EventListener> {
        &self.listener.value
    }

    fn log(&mut self, message: Option<String>)
        ensures
            final(self)@ == old(self)@,
            match model::opt_view(message) {
                Some(report) => exists|l: &mut dyn EventListener, message: String| #[trigger]
                    told(l, message) && message@ == report && &*l == &**old(self).listening()
                        && &*final(l) == &**final(self).listening(),
                None => final(self).listening() == old(self).listening(),
            },
    {
        if let Some(message) = message {
            notify(&mut *self.listener.value, message);
        }
    }

    /// The step for a device that is there.
    pub fn ready(&mut self, device_id: u32, device_type: u32, dos_name: &str) -> (r: (
        Option<String>,
        Vec<DriveCommand>,
    ))
        ensures
            takes(
                ready_step(old(self)@, device_id, device_type, dos_name@),
                final(self)@,
                r.0,
                r.1@,
            ),
            final(self).listening() == old(self).listening(),
    {
        self.device_id = device_id;
        let printer: bool = device_type == pdu::RDPDR_DTYP_PRINT;
        let mut message: String = render::around(
            if printer {
                "printer "
            } else {
                "device "
            },
            device_id as u64,
            " (",
        );
        message.append(dos_name);
        if printer {
            message.append(") ready - opening a test print job");
            let path: String = String::new();
            assert(path@ =~= seq![]);
            let commands: Vec<DriveCommand> = only(
                DriveCommand::Create {
                    device_id,
                    path,
                    desired_access: WRITE_ACCESS,
                    create_disposition: irp::FILE_OVERWRITE_IF,
                    create_options: irp::FILE_SYNCHRONOUS_IO_NONALERT,
                    request_tag: TAG_OPEN_PRINT_JOB,
                },
            );
            return (Some(message), commands);
        }
        message.append(") ready - opening root directory");
        let mut commands: Vec<DriveCommand> = only(
            DriveCommand::Create {
                device_id,
                path: ROOT_PATH.to_owned(),
                desired_access: READ_ACCESS,
                create_disposition: irp::FILE_OPEN,
                create_options: DIRECTORY_OPTIONS,
                request_tag: TAG_OPEN_ROOT,
            },
        );
        commands.push(
            DriveCommand::Create {
                device_id,
                path: WRITE_TEST_FILE_NAME.to_owned(),
                desired_access: WRITE_ACCESS,
                create_disposition: irp::FILE_OVERWRITE_IF,
                create_options: irp::FILE_SYNCHRONOUS_IO_NONALERT,
                request_tag: TAG_CREATE_WRITE_TEST,
            },
        );
        assert(model::views(commands@) =~= ready_step(
            old(self)@,
            device_id,
            device_type,
            dos_name@,
        ).wants);
        (Some(message), commands)
    }

    fn write_contents(&self, what: &str, file_id: u32, contents: Vec<u8>, request_tag: u64) -> (r: (
        Option<String>,
        Vec<DriveCommand>,
    ))
        ensures
            takes(writing_step(self@, what@, file_id, contents@, request_tag), self@, r.0, r.1@),
    {
        let mut message: String = render::around(what, file_id as u64, ") - writing ");
        render::push_decimal(&mut message, contents.len() as u64);
        message.append(" bytes");
        let commands: Vec<DriveCommand> = only(
            DriveCommand::Write {
                device_id: self.device_id,
                file_id,
                offset: 0,
                data: contents,
                request_tag,
            },
        );
        (Some(message), commands)
    }

    /// The step for a file that was opened, or not.
    pub fn created(&mut self, request_tag: u64, result: Result<irp::CreateReply, u32>) -> (r: (
        Option<String>,
        Vec<DriveCommand>,
    ))
        ensures
            takes(create_step(old(self)@, request_tag, result), final(self)@, r.0, r.1@),
            final(self).listening() == old(self).listening(),
    {
        if request_tag == TAG_OPEN_ROOT {
            match result {
                Ok(reply) => {
                    self.root_file_id = Some(reply.file_id);
                    let commands: Vec<DriveCommand> = only(
                        DriveCommand::QueryDirectory {
                            device_id: self.device_id,
                            file_id: reply.file_id,
                            path: Some(LIST_ALL_PATTERN.to_owned()),
                            request_tag: TAG_LIST,
                        },
                    );
                    (Some("root directory opened - listing entries".to_owned()), commands)
                },
                Err(status) => (
                    Some(with_status_last("failed to open root directory: NTSTATUS ", status)),
                    nothing(),
                ),
            }
        } else if request_tag == TAG_OPEN_SAMPLE {
            match result {
                Ok(reply) => {
                    self.sample_file_id = Some(reply.file_id);
                    let mut message: String = render::around(
                        "sample file opened (FileId ",
                        reply.file_id as u64,
                        ") - reading first ",
                    );
                    render::push_decimal(&mut message, SAMPLE_READ_LENGTH as u64);
                    message.append(" bytes");
                    let commands: Vec<DriveCommand> = only(
                        DriveCommand::Read {
                            device_id: self.device_id,
                            file_id: reply.file_id,
                            length: SAMPLE_READ_LENGTH,
                            offset: 0,
                            request_tag: TAG_READ_SAMPLE,
                        },
                    );
                    (Some(message), commands)
                },
                Err(status) => (
                    Some(with_status_last("failed to open sample file: NTSTATUS ", status)),
                    nothing(),
                ),
            }
        } else if request_tag == TAG_CREATE_WRITE_TEST {
            match result {
                Ok(reply) => {
                    self.write_test_file_id = Some(reply.file_id);
                    self.write_contents(
                        "write-test file created (FileId ",
                        reply.file_id,
                        text_bytes(WRITE_TEST_CONTENTS),
                        TAG_WRITE_TEST,
                    )
                },
                Err(status) => (
                    Some(with_status_last("failed to create write-test file: NTSTATUS ", status)),
                    nothing(),
                ),
            }
        } else if request_tag == TAG_OPEN_PRINT_JOB {
            match result {
                Ok(reply) => {
                    self.print_job_file_id = Some(reply.file_id);
                    self.write_contents(
                        "print job opened (FileId ",
                        reply.file_id,
                        text_bytes(PRINT_JOB_TEST_CONTENTS),
                        TAG_WRITE_PRINT_JOB,
                    )
                },
                Err(status) => (
                    Some(with_status_last("failed to open print job: NTSTATUS ", status)),
                    nothing(),
                ),
            }
        } else {
            (None, nothing())
        }
    }

    /// The step for an entry of the root, or the end of the listing.
    pub fn listed(
        &mut self,
        request_tag: u64,
        result: Result<Option<irp::DirectoryEntry>, u32>,
    ) -> (r: (Option<String>, Vec<DriveCommand>))
        ensures
            takes(
                listing_step(
                    old(self)@,
                    request_tag,
                    match result {
                        Ok(entry) => Ok(model::opt_view(entry)),
                        Err(status) => Err(status),
                    },
                ),
                final(self)@,
                r.0,
                r.1@,
            ),
            final(self).listening() == old(self).listening(),
    {
        if request_tag != TAG_LIST {
            return (None, nothing());
        }
        match result {
            Ok(Some(entry)) => {
                let report: String = describe(&entry);
                let is_dir: bool = entry.file_attributes & irp::FILE_ATTRIBUTE_DIRECTORY != 0;
                if !is_dir && !self.sampled_a_file && !names_dots(entry.file_name.as_str()) {
                    self.sampled_a_file = true;
                    let mut path: String = ROOT_PATH.to_owned();
                    path.append(entry.file_name.as_str());
                    let mut commands: Vec<DriveCommand> = only(
                        DriveCommand::Create {
                            device_id: self.device_id,
                            path,
                            desired_access: READ_ACCESS,
                            create_disposition: irp::FILE_OPEN,
                            create_options: irp::FILE_SYNCHRONOUS_IO_NONALERT,
                            request_tag: TAG_OPEN_SAMPLE,
                        },
                    );
                    let mut more: Vec<DriveCommand> = self.list_on();
                    proof {
                        model::lemma_views_add(commands@, more@);
                    }
                    commands.append(&mut more);
                    return (Some(report), commands);
                }
                (Some(report), self.list_on())
            },
            Ok(None) => {
                let file_id: Option<u32> = self.root_file_id;
                self.root_file_id = None;
                (
                    Some("directory listing complete".to_owned()),
                    self.close(file_id, TAG_CLOSE_ROOT),
                )
            },
            Err(status) => (
                Some(with_status_last("directory query failed: NTSTATUS ", status)),
                nothing(),
            ),
        }
    }

    /// Asks for the next entry of the root, where it is open.
    fn list_on(&self) -> (commands: Vec<DriveCommand>)
        ensures
            model::views(commands@) == next_entry(self@),
    {
        match self.root_file_id {
            Some(file_id) => only(
                DriveCommand::QueryDirectory {
                    device_id: self.device_id,
                    file_id,
                    path: None,
                    request_tag: TAG_LIST,
                },
            ),
            None => nothing(),
        }
    }

    fn close(&self, file_id: Option<u32>, request_tag: u64) -> (commands: Vec<DriveCommand>)
        ensures
            model::views(commands@) == closing_step(self@, seq![], file_id, request_tag).wants,
    {
        match file_id {
            Some(file_id) => only(
                DriveCommand::Close { device_id: self.device_id, file_id, request_tag },
            ),
            None => nothing(),
        }
    }

    /// The step for what was read of the sample, or not.
    pub fn read(&mut self, request_tag: u64, result: Result<Vec<u8>, u32>) -> (r: (
        Option<String>,
        Vec<DriveCommand>,
    ))
        ensures
            takes(
                read_step(
                    old(self)@,
                    request_tag,
                    match result {
                        Ok(data) => Ok(data@),
                        Err(status) => Err(status),
                    },
                ),
                final(self)@,
                r.0,
                r.1@,
            ),
            final(self).listening() == old(self).listening(),
    {
        if request_tag != TAG_READ_SAMPLE {
            return (None, nothing());
        }
        let message: String = match result {
            Ok(data) => {
                let n: usize = if data.len() < PREVIEW_LENGTH {
                    data.len()
                } else {
                    PREVIEW_LENGTH
                };
                let shown: String = text::lossy_text(slice_subrange(data.as_slice(), 0, n));
                let mut message: String = render::around(
                    "read ",
                    data.len() as u64,
                    " bytes from sample file - preview: ",
                );
                message.append(render::quote(shown.as_str()).as_str());
                message
            },
            Err(status) => with_status_last("sample file read failed: NTSTATUS ", status),
        };
        let file_id: Option<u32> = self.sample_file_id;
        self.sample_file_id = None;
        (Some(message), self.close(file_id, TAG_CLOSE_SAMPLE))
    }

    /// The step for what was written, or not.
    pub fn written(&mut self, request_tag: u64, result: Result<u32, u32>) -> (r: (
        Option<String>,
        Vec<DriveCommand>,
    ))
        ensures
            takes(write_step(old(self)@, request_tag, result), final(self)@, r.0, r.1@),
            final(self).listening() == old(self).listening(),
    {
        if request_tag == TAG_WRITE_TEST {
            let message: String = match result {
                Ok(n) => render::around("wrote ", n as u64, " bytes to write-test file"),
                Err(status) => with_status_last("write-test write failed: NTSTATUS ", status),
            };
            let file_id: Option<u32> = self.write_test_file_id;
            self.write_test_file_id = None;
            (Some(message), self.close(file_id, TAG_CLOSE_WRITE_TEST))
        } else if request_tag == TAG_WRITE_PRINT_JOB {
            let message: String = match result {
                Ok(n) => render::around("wrote ", n as u64, " bytes to print job"),
                Err(status) => with_status_last("print job write failed: NTSTATUS ", status),
            };
            let file_id: Option<u32> = self.print_job_file_id;
            self.print_job_file_id = None;
            (Some(message), self.close(file_id, TAG_CLOSE_PRINT_JOB))
        } else {
            (None, nothing())
        }
    }

    /// The step for a file that was closed.
    pub fn closed(&self, request_tag: u64, status: u32) -> (r: (Option<String>, Vec<DriveCommand>))
        ensures
            takes(close_step(self@, request_tag, status), self@, r.0, r.1@),
    {
        let message: Option<String> = if request_tag == TAG_CLOSE_ROOT {
            Some(with_status("root directory closed (status ", status, ")"))
        } else if request_tag == TAG_CLOSE_SAMPLE {
            Some(
                with_status("sample file closed (status ", status, ") - self-test complete"),
            )
        } else if request_tag == TAG_CLOSE_WRITE_TEST {
            Some(with_status("write-test file closed (status ", status, ")"))
        } else if request_tag == TAG_CLOSE_PRINT_JOB {
            Some(
                with_status("print job closed (status ", status, ") - print self-test complete"),
            )
        } else {
            None
        };
        (message, nothing())
    }
}

impl DriveConsumer for DirectoryListingSelfTest {
    fn on_device_ready(&mut self, device_id: u32, device_type: u32, dos_name: &str) -> (commands:
        Vec<DriveCommand>)
        ensures
            final(self)@ == ready_step(old(self)@, device_id, device_type, dos_name@).after,
            model::views(commands@) == ready_step(
                old(self)@,
                device_id,
                device_type,
                dos_name@,
            ).wants,
            match ready_step(old(self)@, device_id, device_type, dos_name@).report {
                Some(report) => exists|l: &mut dyn EventListener, message: String| #[trigger]
                    told(l, message) && message@ == report && &*l == &**old(self).listening()
                        && &*final(l) == &**final(self).listening(),
                None => final(self).listening() == old(self).listening(),
            },
    {
        let (message, commands) = self.ready(device_id, device_type, dos_name);
        self.log(message);
        commands
    }

    fn on_create_reply(&mut self, request_tag: u64, result: Result<irp::CreateReply, u32>) -> (
    commands: Vec<DriveCommand>)
        ensures
            final(self)@ == create_step(old(self)@, request_tag, result).after,
            model::views(commands@) == create_step(old(self)@, request_tag, result).wants,
            match create_step(old(self)@, request_tag, result).report {
                Some(report) => exists|l: &mut dyn EventListener, message: String| #[trigger]
                    told(l, message) && message@ == report && &*l == &**old(self).listening()
                        && &*final(l) == &**final(self).listening(),
                None => final(self).listening() == old(self).listening(),
            },
    {
        let (message, commands) = self.created(request_tag, result);
        self.log(message);
        commands
    }

    fn on_close_reply(&mut self, request_tag: u64, status: u32) -> (commands: Vec<DriveCommand>)
        ensures
            final(self)@ == old(self)@,
            commands@.len() == 0,
            match close_step(old(self)@, request_tag, status).report {
                Some(report) => exists|l: &mut dyn EventListener, message: String| #[trigger]
                    told(l, message) && message@ == report && &*l == &**old(self).listening()
                        && &*final(l) == &**final(self).listening(),
                None => final(self).listening() == old(self).listening(),
            },
    {
        let (message, commands) = self.closed(request_tag, status);
        assert(model::views(commands@).len() == 0);
        self.log(message);
        commands
    }

    fn on_read_reply(&mut self, request_tag: u64, result: Result<Vec<u8>, u32>) -> (commands: Vec<
        DriveCommand,
    >)
        ensures
            ({
                let step = read_step(
                    old(self)@,
                    request_tag,
                    match result {
                        Ok(data) => Ok(data@),
                        Err(status) => Err(status),
                    },
                );
                &&& final(self)@ == step.after
                &&& model::views(commands@) == step.wants
                &&& match step.report {
                    Some(report) => exists|l: &mut dyn EventListener, message: String| #[trigger]
                        told(l, message) && message@ == report && &*l == &**old(self).listening()
                            && &*final(l) == &**final(self).listening(),
                    None => final(self).listening() == old(self).listening(),
                }
            }),
    {
        let (message, commands) = self.read(request_tag, result);
        self.log(message);
        commands
    }

    fn on_write_reply(&mut self, request_tag: u64, result: Result<u32, u32>) -> (commands: Vec<
        DriveCommand,
    >)
        ensures
            final(self)@ == write_step(old(self)@, request_tag, result).after,
            model::views(commands@) == write_step(old(self)@, request_tag, result).wants,
            match write_step(old(self)@, request_tag, result).report {
                Some(report) => exists|l: &mut dyn EventListener, message: String| #[trigger]
                    told(l, message) && message@ == report && &*l == &**old(self).listening()
                        && &*final(l) == &**final(self).listening(),
                None => final(self).listening() == old(self).listening(),
            },
    {
        let (message, commands) = self.written(request_tag, result);
        self.log(message);
        commands
    }

    fn on_query_directory_reply(
        &mut self,
        request_tag: u64,
        result: Result<Option<irp::DirectoryEntry>, u32>,
    ) -> (commands: Vec<DriveCommand>)
        ensures
            ({
                let step = listing_step(
                    old(self)@,
                    request_tag,
                    match result {
                        Ok(entry) => Ok(model::opt_view(entry)),
                        Err(status) => Err(status),
                    },
                );
                &&& final(self)@ == step.after
                &&& model::views(commands@) == step.wants
                &&& match step.report {
                    Some(report) => exists|l: &mut dyn EventListener, message: String| #[trigger]
                        told(l, message) && message@ == report && &*l == &**old(self).listening()
                            && &*final(l) == &**final(self).listening(),
                    None => final(self).listening() == old(self).listening(),
                }
            }),
    {
        let (message, commands) = self.listed(request_tag, result);
        self.log(message);
        commands
    }

    fn on_set_information_reply(&mut self, request_tag: u64, result: Result<(), u32>) -> (commands:
        Vec<DriveCommand>)
        ensures
            final(self)@ == old(self)@,
            commands@.len() == 0,
            final(self).listening() == old(self).listening(),
    {
        Vec::new()
    }
}

/// A sample, a test file and a print job are closed once the request on them has
/// ended, well or badly, and the root is closed at the end of its listing.
pub proof fn law_files_are_closed(s: SelfTestView, tag: u64, reply: irp::CreateReply)
    ensures
        forall|r: Result<Seq<u8>, u32>|
            tag == TAG_OPEN_SAMPLE ==> (#[trigger] read_step(
                create_step(s, tag, Ok(reply)).after,
                TAG_READ_SAMPLE,
                r,
            )).wants == seq![
                DriveCommandView::Close {
                    device_id: s.device_id,
                    file_id: reply.file_id,
                    request_tag: TAG_CLOSE_SAMPLE,
                },
            ],
        forall|r: Result<u32, u32>|
            tag == TAG_CREATE_WRITE_TEST ==> (#[trigger] write_step(
                create_step(s, tag, Ok(reply)).after,
                TAG_WRITE_TEST,
                r,
            )).wants == seq![
                DriveCommandView::Close {
                    device_id: s.device_id,
                    file_id: reply.file_id,
                    request_tag: TAG_CLOSE_WRITE_TEST,
                },
            ],
        forall|r: Result<u32, u32>|
            tag == TAG_OPEN_PRINT_JOB ==> (#[trigger] write_step(
                create_step(s, tag, Ok(reply)).after,
                TAG_WRITE_PRINT_JOB,
                r,
            )).wants == seq![
                DriveCommandView::Close {
                    device_id: s.device_id,
                    file_id: reply.file_id,
                    request_tag: TAG_CLOSE_PRINT_JOB,
                },
            ],
        tag == TAG_OPEN_ROOT ==> listing_step(
            create_step(s, tag, Ok(reply)).after,
            TAG_LIST,
            Ok(None),
        ).wants == seq![
            DriveCommandView::Close {
                device_id: s.device_id,
                file_id: reply.file_id,
                request_tag: TAG_CLOSE_ROOT,
            },
        ],
{
}

/// Each entry of the listing, of whatever kind, is reported, leaves the root open,
/// and leads to a request for the next one: the walk goes on to the end of the
/// listing.
pub proof fn law_listing_goes_on(s: SelfTestView, entry: irp::DirectoryEntryView)
    requires
        s.root is Some,
    ensures
        ({
            let step = listing_step(s, TAG_LIST, Ok(Some(entry)));
            &&& step.report == Some(entry_report(entry))
            &&& step.after.root == s.root
            &&& step.after.device_id == s.device_id
            &&& step.wants.len() > 0
            &&& step.wants.last() == DriveCommandView::QueryDirectory {
                device_id: s.device_id,
                file_id: s.root->Some_0,
                path: None,
                request_tag: TAG_LIST,
            }
        }),
{
}

proof fn lemma_access()
    ensures
        READ_ACCESS == 0x8010_0000,
        WRITE_ACCESS == 0x4010_0000,
        DIRECTORY_OPTIONS == 0x21,
{
    assert(0x8000_0000u32 | 0x0010_0000u32 == 0x8010_0000u32 && 0x4000_0000u32 | 0x0010_0000u32
        == 0x4010_0000u32 && 0x0000_0001u32 | 0x0000_0020u32 == 0x21u32) by (bit_vector);
}

/// On a printer, which is of the type 4, a job is opened to be written. On anything else
/// the root is opened to be read, as a directory, and a file of its own is made anew.
pub proof fn law_device(
    a: &mut DirectoryListingSelfTest,
    device_id: u32,
    device_type: u32,
    dos_name: &str,
    r: (Option<String>, Vec<DriveCommand>),
)
    requires
        call_ensures(DirectoryListingSelfTest::ready, (a, device_id, device_type, dos_name), r),
    ensures
        final(a)@.device_id == device_id,
        final(a)@.root == old(a)@.root,
        r.0 is Some,
        device_type == 4 ==> {
            &&& model::views(r.1@) == seq![
                DriveCommandView::Create {
                    device_id,
                    path: seq![],
                    desired_access: 0x4010_0000,
                    create_disposition: 5,
                    create_options: 0x20,
                    request_tag: 10,
                },
            ]
            &&& r.0->Some_0@ == "printer "@ + render::decimal(device_id as nat) + " ("@ + dos_name@
                + ") ready - opening a test print job"@
        },
        device_type != 4 ==> {
            &&& model::views(r.1@) == seq![
                DriveCommandView::Create {
                    device_id,
                    path: "\\"@,
                    desired_access: 0x8010_0000,
                    create_disposition: 1,
                    create_options: 0x21,
                    request_tag: 1,
                },
                DriveCommandView::Create {
                    device_id,
                    path: "\\kmsrdp_rdpdr_selftest.tmp"@,
                    desired_access: 0x4010_0000,
                    create_disposition: 5,
                    create_options: 0x20,
                    request_tag: 7,
                },
            ]
            &&& r.0->Some_0@ == "device "@ + render::decimal(device_id as nat) + " ("@ + dos_name@
                + ") ready - opening root directory"@
        },
{
    lemma_access();
}

/// What was opened is used under the number that it then has: the root is listed, the
/// first 4096 bytes of the sample are read, and the contents are written from the start.
/// Where it was not, nothing more is wanted of it.
pub proof fn law_opened(
    a: &mut DirectoryListingSelfTest,
    tag: u64,
    result: Result<irp::CreateReply, u32>,
    r: (Option<String>, Vec<DriveCommand>),
)
    requires
        call_ensures(DirectoryListingSelfTest::created, (a, tag, result), r),
    ensures
        result is Err || (tag != 1 && tag != 3 && tag != 7 && tag != 10) ==> final(a)@ == old(a)@
            && r.1@.len() == 0,
        result is Ok ==> ({
            let device_id = old(a)@.device_id;
            let file_id = result->Ok_0.file_id;
            let out = model::views(r.1@);
            &&& final(a)@.device_id == device_id
            &&& tag == 1 ==> {
                &&& final(a)@ == (SelfTestView { root: Some(file_id), ..old(a)@ })
                &&& out == seq![
                    DriveCommandView::QueryDirectory {
                        device_id,
                        file_id,
                        path: Some("\\*"@),
                        request_tag: 2,
                    },
                ]
            }
            &&& tag == 3 ==> {
                &&& final(a)@ == (SelfTestView { sample: Some(file_id), ..old(a)@ })
                &&& out == seq![
                    DriveCommandView::Read {
                        device_id,
                        file_id,
                        length: 4096,
                        offset: 0,
                        request_tag: 4,
                    },
                ]
            }
            &&& tag == 7 ==> {
                &&& final(a)@ == (SelfTestView { write_test: Some(file_id), ..old(a)@ })
                &&& out == seq![
                    DriveCommandView::Write {
                        device_id,
                        file_id,
                        offset: 0,
                        data: "kmsrdp RDPDR write self-test\n".spec_bytes(),
                        request_tag: 8,
                    },
                ]
            }
            &&& tag == 10 ==> {
                &&& final(a)@ == (SelfTestView { print_job: Some(file_id), ..old(a)@ })
                &&& out == seq![
                    DriveCommandView::Write {
                        device_id,
                        file_id,
                        offset: 0,
                        data: "kmsrdp RDPDR print job self-test\n".spec_bytes(),
                        request_tag: 11,
                    },
                ]
            }
        }),
{
    assert(model::views(r.1@).len() == r.1@.len());
}

/// Of the entries of the root the first file is opened to be read, by its name under the
/// root; after every entry the next is asked for; and at the end the root is closed.
pub proof fn law_walked(
    a: &mut DirectoryListingSelfTest,
    tag: u64,
    result: Result<Option<irp::DirectoryEntry>, u32>,
    r: (Option<String>, Vec<DriveCommand>),
)
    requires
        call_ensures(DirectoryListingSelfTest::listed, (a, tag, result), r),
        old(a)@.root is Some,
    ensures
        tag != 2 || result is Err ==> final(a)@ == old(a)@ && r.1@.len() == 0,
        tag == 2 && result is Ok ==> ({
            let device_id = old(a)@.device_id;
            let root = old(a)@.root->Some_0;
            let out = model::views(r.1@);
            match result->Ok_0 {
                None => {
                    &&& final(a)@ == (SelfTestView { root: None, ..old(a)@ })
                    &&& out == seq![
                        DriveCommandView::Close { device_id, file_id: root, request_tag: 5 },
                    ]
                },
                Some(entry) => {
                    let name = entry@.file_name;
                    let next = DriveCommandView::QueryDirectory {
                        device_id,
                        file_id: root,
                        path: None,
                        request_tag: 2,
                    };
                    let sample = entry@.file_attributes & 0x10 == 0 && !old(a)@.sampled && name
                        != seq!['.'] && name != seq!['.', '.'];
                    &&& !sample ==> final(a)@ == old(a)@ && out == seq![next]
                    &&& sample ==> {
                        &&& final(a)@ == (SelfTestView { sampled: true, ..old(a)@ })
                        &&& out == seq![
                            DriveCommandView::Create {
                                device_id,
                                path: "\\"@ + name,
                                desired_access: 0x8010_0000,
                                create_disposition: 1,
                                create_options: 0x20,
                                request_tag: 3,
                            },
                            next,
                        ]
                    }
                },
            }
        }),
{
    lemma_access();
    assert(model::views(r.1@).len() == r.1@.len());
    if let Ok(Some(entry)) = result {
        assert(model::opt_view(result->Ok_0) == Some(entry@));
    }
}

/// Once it was read or written, or that failed, a file is closed: the one that was opened
/// for it.
pub proof fn law_done(
    a: &mut DirectoryListingSelfTest,
    tag: u64,
    result: Result<Vec<u8>, u32>,
    r: (Option<String>, Vec<DriveCommand>),
    z: &mut DirectoryListingSelfTest,
    wtag: u64,
    written: Result<u32, u32>,
    w: (Option<String>, Vec<DriveCommand>),
)
    requires
        call_ensures(DirectoryListingSelfTest::read, (a, tag, result), r),
        call_ensures(DirectoryListingSelfTest::written, (z, wtag, written), w),
    ensures
        tag != 4 ==> final(a)@ == old(a)@ && r.1@.len() == 0 && r.0 is None,
        tag == 4 ==> {
            &&& final(a)@ == (SelfTestView { sample: None, ..old(a)@ })
            &&& old(a)@.sample matches Some(file_id) ==> model::views(r.1@) == seq![
                DriveCommandView::Close { device_id: old(a)@.device_id, file_id, request_tag: 6 },
            ]
            &&& result matches Err(status) ==> r.0->Some_0@
                == "sample file read failed: NTSTATUS "@ + render::hex32(status)
        },
        wtag != 8 && wtag != 11 ==> final(z)@ == old(z)@ && w.1@.len() == 0 && w.0 is None,
        wtag == 8 ==> {
            &&& final(z)@ == (SelfTestView { write_test: None, ..old(z)@ })
            &&& old(z)@.write_test matches Some(file_id) ==> model::views(w.1@) == seq![
                DriveCommandView::Close { device_id: old(z)@.device_id, file_id, request_tag: 9 },
            ]
            &&& written matches Ok(n) ==> w.0->Some_0@ == "wrote "@ + render::decimal(n as nat)
                + " bytes to write-test file"@
        },
        wtag == 11 ==> {
            &&& final(z)@ == (SelfTestView { print_job: None, ..old(z)@ })
            &&& old(z)@.print_job matches Some(file_id) ==> model::views(w.1@) == seq![
                DriveCommandView::Close { device_id: old(z)@.device_id, file_id, request_tag: 12 },
            ]
            &&& written matches Ok(n) ==> w.0->Some_0@ == "wrote "@ + render::decimal(n as nat)
                + " bytes to print job"@
        },
{
    assert(model::views(r.1@).len() == r.1@.len());
    assert(model::views(w.1@).len() == w.1@.len());
}

} // verus!
