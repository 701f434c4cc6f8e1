//! The questions that set up a data directory, one after the other.

use vstd::prelude::*;
use crate::parts;
use crate::text;
use crate::init_dir;
use crate::init_dir::{
    default_cert_path, default_key_path, read_text, read_yes_no, render_client_proxy_toml,
    render_client_tunnel_toml, render_server_toml, split_tunnels, InitFile, OutputDir, Present,
};

verus! {

/// What is asked next.
#[derive(Debug, PartialEq, Eq, Structural, Clone, Copy)]
pub enum Stage {
    /// Whether certificates that are there stay.
    Reuse,
    /// Whether they are replaced.
    Renew,
    /// Whether certificates are made.
    Generate,
    /// The host name for a certificate, and whether it replaces another.
    Host(bool),
    /// Whether a file that is there is replaced.
    Overwrite(InitFile),
    /// Whether a file is made.
    Confirm(InitFile),
    /// A value in the file.
    Field(InitFile, u8),
    Done,
}

/// A question.
pub enum Question {
    /// Settled by yes or no; the second says what an empty answer means.
    YesNo(String, bool),
    /// For a text; the second is what an empty answer means.
    Text(String, String),
    Nothing,
}

pub enum QuestionView {
    YesNo(Seq<char>, bool),
    Text(Seq<char>, Seq<char>),
    Nothing,
}

impl View for Question {
    type V = QuestionView;

    open spec fn view(&self) -> QuestionView {
        match *self {
            Question::YesNo(t, d) => QuestionView::YesNo(t@, d),
            Question::Text(t, d) => QuestionView::Text(t@, d@),
            Question::Nothing => QuestionView::Nothing,
        }
    }
}

/// What an answer leads to.
pub enum Act {
    /// "Please enter y or n.": the question stands.
    Again,
    Nothing,
    /// Tell the user.
    Say(String),
    /// Make a certificate for the host; the flag says whether one that is there is replaced.
    Certs(String, bool),
    /// Write the file.
    Write(InitFile, String),
    /// "at least one tunnel port mapping is required"
    Fail,
}

pub enum ActView {
    Again,
    Nothing,
    Say(Seq<char>),
    Certs(Seq<char>, bool),
    Write(InitFile, Seq<char>),
    Fail,
}

impl View for Act {
    type V = ActView;

    open spec fn view(&self) -> ActView {
        match *self {
            Act::Again => ActView::Again,
            Act::Nothing => ActView::Nothing,
            Act::Say(t) => ActView::Say(t@),
            Act::Certs(h, f) => ActView::Certs(h@, f),
            Act::Write(file, c) => ActView::Write(file, c@),
            Act::Fail => ActView::Fail,
        }
    }
}

/// The questions and what has been answered.
pub struct Wizard {
    stage: Stage,
    force: bool,
    present: Present,
    default_host: String,
    tls_host: String,
    cert: String,
    key: String,
    answers: Vec<String>,
}

#[verifier::ext_equal]
pub struct WizardView {
    pub stage: Stage,
    /// Everything that is there is replaced.
    pub force: bool,
    pub present: Present,
    /// The host name that is proposed for a certificate.
    pub default_host: Seq<char>,
    pub tls_host: Seq<char>,
    pub cert: Seq<char>,
    pub key: Seq<char>,
    /// The values of the current file so far.
    pub answers: Seq<Seq<char>>,
}

impl View for Wizard {
    type V = WizardView;

    closed spec fn view(&self) -> WizardView {
        WizardView {
            stage: self.stage,
            force: self.force,
            present: self.present,
            default_host: self.default_host@,
            tls_host: self.tls_host@,
            cert: self.cert@,
            key: self.key@,
            answers: parts::texts(self.answers@),
        }
    }
}

/// How many values a file has.
pub open spec fn field_count(file: InitFile) -> u8 {
    match file {
        InitFile::Server => 5,
        InitFile::ClientProxy => 5,
        InitFile::ClientTunnel => 6,
    }
}

impl WizardView {
    /// As many values have been answered as the stage says.
    pub open spec fn wf(self) -> bool {
        match self.stage {
            Stage::Field(file, i) => i < field_count(file) && self.answers.len() == i,
            _ => true,
        }
    }

    /// The question for a value of a file, and what it is where the answer is empty.
    pub open spec fn field(self, file: InitFile, i: u8) -> (Seq<char>, Seq<char>) {
        match file {
            InitFile::Server => if i == 0 {
                ("  cert path"@, self.cert)
            } else if i == 1 {
                ("  key path"@, self.key)
            } else if i == 2 {
                ("  listen address"@, "0.0.0.0:48100"@)
            } else if i == 3 {
                ("  admin listen address"@, "0.0.0.0:48102"@)
            } else {
                ("  tunnel port range"@, "8000-9000"@)
            },
            InitFile::ClientProxy => if i == 0 {
                ("  cert path"@, self.cert)
            } else if i == 1 {
                ("  tls_host (runtime SNI)"@, self.tls_host)
            } else if i == 2 {
                ("  remote server"@, "tls://server:48100"@)
            } else if i == 3 {
                ("  listen address"@, "0.0.0.0:48101"@)
            } else {
                ("  admin listen address"@, "0.0.0.0:48103"@)
            },
            InitFile::ClientTunnel => if i == 0 {
                ("  cert path"@, self.cert)
            } else if i == 1 {
                ("  tls_host (runtime SNI)"@, self.tls_host)
            } else if i == 2 {
                ("  remote server"@, "tls://127.0.0.1:48100"@)
            } else if i == 3 {
                ("  tunnel client ID"@, "my-client"@)
            } else if i == 4 {
                ("  tunnel port mappings (comma-separated)"@, "8080:80,8443:443"@)
            } else {
                ("  admin listen address"@, "0.0.0.0:48104"@)
            },
        }
    }

    /// The question that is asked.
    pub open spec fn question(self) -> QuestionView {
        match self.stage {
            Stage::Reuse => QuestionView::YesNo("Existing certificates found. Reuse them?"@, true),
            Stage::Renew => QuestionView::YesNo("Generate new certificate and key?"@, true),
            Stage::Generate => QuestionView::YesNo("Generate certificate and key?"@, true),
            Stage::Host(_) => QuestionView::Text(
                "TLS hostname (for certificate)"@,
                self.default_host,
            ),
            Stage::Overwrite(file) => QuestionView::YesNo(
                file.name() + " already exists. Overwrite?"@,
                false,
            ),
            Stage::Confirm(file) => QuestionView::YesNo("Generate "@ + file.name() + "?"@, true),
            Stage::Field(file, i) => QuestionView::Text(
                self.field(file, i).0,
                self.field(file, i).1,
            ),
            Stage::Done => QuestionView::Nothing,
        }
    }

    /// The stage at which a file is come to.
    pub open spec fn entry(self, file: InitFile) -> Stage {
        if self.present.holds(file) && !self.force {
            Stage::Overwrite(file)
        } else {
            Stage::Confirm(file)
        }
    }

    /// The stage after a file.
    pub open spec fn after(self, file: InitFile) -> Stage {
        match file {
            InitFile::Server => self.entry(InitFile::ClientProxy),
            InitFile::ClientProxy => self.entry(InitFile::ClientTunnel),
            InitFile::ClientTunnel => Stage::Done,
        }
    }

    pub open spec fn at(self, stage: Stage) -> WizardView {
        WizardView { stage, ..self }
    }

    /// What the values of a file lead to.
    pub open spec fn composed(self, file: InitFile, a: Seq<Seq<char>>) -> ActView {
        match file {
            InitFile::Server => ActView::Write(file, init_dir::server_toml(a[0], a[1], a[2], a[3], a[4])),
            InitFile::ClientProxy => ActView::Write(
                file,
                init_dir::client_proxy_toml(a[1], a[0], a[2], a[3], a[4]),
            ),
            InitFile::ClientTunnel => if init_dir::named_tunnels(a[4]).len() == 0 {
                ActView::Fail
            } else {
                ActView::Write(
                    file,
                    init_dir::client_tunnel_toml(a[1], a[0], a[2], a[5], a[3], init_dir::named_tunnels(a[4])),
                )
            },
        }
    }

    /// The state after an answer, and what it leads to.
    pub open spec fn answered(self, line: Seq<char>) -> (WizardView, ActView) {
        match self.stage {
            Stage::Reuse => match init_dir::yes_no(line, true) {
                Some(true) => (
                    self.at(self.entry(InitFile::Server)),
                    ActView::Say("Reusing existing certificates."@),
                ),
                Some(false) => (self.at(Stage::Renew), ActView::Nothing),
                None => (self, ActView::Again),
            },
            Stage::Renew => match init_dir::yes_no(line, true) {
                Some(true) => (self.at(Stage::Host(true)), ActView::Nothing),
                Some(false) => (self.at(self.entry(InitFile::Server)), ActView::Nothing),
                None => (self, ActView::Again),
            },
            Stage::Generate => match init_dir::yes_no(line, true) {
                Some(true) => (self.at(Stage::Host(self.force)), ActView::Nothing),
                Some(false) => (
                    self.at(self.entry(InitFile::Server)),
                    ActView::Say("Skipping certificate generation."@),
                ),
                None => (self, ActView::Again),
            },
            Stage::Host(replace) => {
                let host = init_dir::text_answer(line, self.default_host);
                (
                    WizardView { tls_host: host, ..self.at(self.entry(InitFile::Server)) },
                    ActView::Certs(host, replace),
                )
            },
            Stage::Overwrite(file) => match init_dir::yes_no(line, false) {
                Some(true) => (self.at(Stage::Confirm(file)), ActView::Nothing),
                Some(false) => (
                    self.at(self.after(file)),
                    ActView::Say("Skipping "@ + file.name() + "."@),
                ),
                None => (self, ActView::Again),
            },
            Stage::Confirm(file) => match init_dir::yes_no(line, true) {
                Some(true) => (
                    WizardView { answers: Seq::empty(), ..self.at(Stage::Field(file, 0)) },
                    if file == InitFile::ClientTunnel {
                        ActView::Say(
                            "  Tunnel mapping formats: port | local:remote | host:local:remote | host:local:remote:sni"@,
                        )
                    } else {
                        ActView::Nothing
                    },
                ),
                Some(false) => (self.at(self.after(file)), ActView::Nothing),
                None => (self, ActView::Again),
            },
            Stage::Field(file, i) => {
                let answers = self.answers.push(init_dir::text_answer(line, self.field(file, i).1));
                if i + 1 < field_count(file) {
                    (
                        WizardView { answers, ..self.at(Stage::Field(file, (i + 1) as u8)) },
                        ActView::Nothing,
                    )
                } else {
                    (
                        WizardView { answers, ..self.at(self.after(file)) },
                        self.composed(file, answers),
                    )
                }
            },
            Stage::Done => (self, ActView::Nothing),
        }
    }
}

fn joined(a: &str, b: &str, c: &str) -> (r: String)
    ensures
        r@ == a@ + b@ + c@,
{
    let mut s: String = a.to_owned();
    s.push_str(b);
    s.push_str(c);
    s
}

/// The start of the questions.
pub open spec fn begins(
    w: WizardView,
    dir: OutputDir,
    default_host: Seq<char>,
    force: bool,
    present: Present,
) -> bool {
    w == (WizardView {
        stage: if present.certs && !force {
            Stage::Reuse
        } else if force {
            Stage::Host(true)
        } else {
            Stage::Generate
        },
        force,
        present,
        default_host,
        tls_host: default_host,
        cert: init_dir::cert_path(dir),
        key: init_dir::key_path(dir),
        answers: Seq::empty(),
    })
}

impl Wizard {
    /// The first question depends on whether certificates are there, and on whether everything is
    /// to be replaced.
    pub fn new(dir: &OutputDir, default_tls_host: &str, force: bool, present: Present) -> (r: Wizard)
        ensures
            r@.wf(),
            begins(r@, *dir, default_tls_host@, force, present),
    {
        let stage = if present.certs && !force {
            Stage::Reuse
        } else if force {
            Stage::Host(true)
        } else {
            Stage::Generate
        };
        let r = Wizard {
            stage,
            force,
            present,
            default_host: default_tls_host.to_owned(),
            tls_host: default_tls_host.to_owned(),
            cert: default_cert_path(dir),
            key: default_key_path(dir),
            answers: Vec::new(),
        };
        assert(r@.answers =~= Seq::empty());
        r
    }

    pub fn is_done(&self) -> (r: bool)
        ensures
            r == (self@.stage == Stage::Done),
    {
        self.stage == Stage::Done
    }

    fn entry_stage(&self, file: InitFile) -> (r: Stage)
        ensures
            r == self@.entry(file),
    {
        if self.present.has(file) && !self.force {
            Stage::Overwrite(file)
        } else {
            Stage::Confirm(file)
        }
    }

    fn stage_after(&self, file: InitFile) -> (r: Stage)
        ensures
            r == self@.after(file),
    {
        match file {
            InitFile::Server => self.entry_stage(InitFile::ClientProxy),
            InitFile::ClientProxy => self.entry_stage(InitFile::ClientTunnel),
            InitFile::ClientTunnel => Stage::Done,
        }
    }

    fn field_question(&self, file: InitFile, i: u8) -> (r: (&str, &str))
        ensures
            (r.0@, r.1@) == self@.field(file, i),
    {
        match file {
            InitFile::Server => if i == 0 {
                ("  cert path", self.cert.as_str())
            } else if i == 1 {
                ("  key path", self.key.as_str())
            } else if i == 2 {
                ("  listen address", "0.0.0.0:48100")
            } else if i == 3 {
                ("  admin listen address", "0.0.0.0:48102")
            } else {
                ("  tunnel port range", "8000-9000")
            },
            InitFile::ClientProxy => if i == 0 {
                ("  cert path", self.cert.as_str())
            } else if i == 1 {
                ("  tls_host (runtime SNI)", self.tls_host.as_str())
            } else if i == 2 {
                ("  remote server", "tls://server:48100")
            } else if i == 3 {
                ("  listen address", "0.0.0.0:48101")
            } else {
                ("  admin listen address", "0.0.0.0:48103")
            },
            InitFile::ClientTunnel => if i == 0 {
                ("  cert path", self.cert.as_str())
            } else if i == 1 {
                ("  tls_host (runtime SNI)", self.tls_host.as_str())
            } else if i == 2 {
                ("  remote server", "tls://127.0.0.1:48100")
            } else if i == 3 {
                ("  tunnel client ID", "my-client")
            } else if i == 4 {
                ("  tunnel port mappings (comma-separated)", "8080:80,8443:443")
            } else {
                ("  admin listen address", "0.0.0.0:48104")
            },
        }
    }

    /// The question that is asked.
    pub fn question(&self) -> (r: Question)
        ensures
            r@ == self@.question(),
    {
        match self.stage {
            Stage::Reuse => Question::YesNo(
                "Existing certificates found. Reuse them?".to_owned(),
                true,
            ),
            Stage::Renew => Question::YesNo("Generate new certificate and key?".to_owned(), true),
            Stage::Generate => Question::YesNo("Generate certificate and key?".to_owned(), true),
            Stage::Host(_) => Question::Text(
                "TLS hostname (for certificate)".to_owned(),
                self.default_host.clone(),
            ),
            Stage::Overwrite(file) => {
                let mut text: String = file.file_name().to_owned();
                text.push_str(" already exists. Overwrite?");
                Question::YesNo(text, false)
            },
            Stage::Confirm(file) => Question::YesNo(
                joined("Generate ", file.file_name(), "?"),
                true,
            ),
            Stage::Field(file, i) => {
                let (text, default) = self.field_question(file, i);
                Question::Text(text.to_owned(), default.to_owned())
            },
            Stage::Done => Question::Nothing,
        }
    }

    fn compose(&self, file: InitFile) -> (r: Act)
        requires
            self@.answers.len() == field_count(file),
        ensures
            r@ == self@.composed(file, self@.answers),
    {
        let ghost a = self@.answers;
        assert(forall|i: int| 0 <= i < a.len() ==> a[i] == #[trigger] self.answers@[i]@);
        match file {
            InitFile::Server => Act::Write(
                file,
                render_server_toml(
                    self.answers[0].as_str(),
                    self.answers[1].as_str(),
                    self.answers[2].as_str(),
                    self.answers[3].as_str(),
                    self.answers[4].as_str(),
                ),
            ),
            InitFile::ClientProxy => Act::Write(
                file,
                render_client_proxy_toml(
                    self.answers[1].as_str(),
                    self.answers[0].as_str(),
                    self.answers[2].as_str(),
                    self.answers[3].as_str(),
                    self.answers[4].as_str(),
                ),
            ),
            InitFile::ClientTunnel => {
                let tunnels = split_tunnels(self.answers[4].as_str());
                if tunnels.len() == 0 {
                    return Act::Fail;
                }
                Act::Write(
                    file,
                    render_client_tunnel_toml(
                        self.answers[1].as_str(),
                        self.answers[0].as_str(),
                        self.answers[2].as_str(),
                        self.answers[5].as_str(),
                        self.answers[3].as_str(),
                        &tunnels,
                    ),
                )
            },
        }
    }

    fn answer_field(&mut self, file: InitFile, i: u8, line: &str) -> (r: Act)
        requires
            old(self)@.wf(),
            old(self)@.stage == Stage::Field(file, i),
        ensures
            final(self)@.wf(),
            final(self)@ == old(self)@.answered(line@).0,
            r@ == old(self)@.answered(line@).1,
    {
        let ghost pre = self@;
        let ghost before = self.answers@;
        let text = read_text(line, self.field_question(file, i).1);
        let ghost view = text@;
        self.answers.push(text);
        assert(self@.answers =~= pre.answers.push(view));
        let count: u8 = match file {
            InitFile::Server => 5,
            InitFile::ClientProxy => 5,
            InitFile::ClientTunnel => 6,
        };
        if i + 1 < count {
            self.stage = Stage::Field(file, i + 1);
            Act::Nothing
        } else {
            let act = self.compose(file);
            self.stage = self.stage_after(file);
            act
        }
    }

    fn answer_yes_no(&mut self, line: &str, default_yes: bool) -> (r: Act)
        requires
            old(self)@.wf(),
            old(self)@.question() matches QuestionView::YesNo(_, d) && d == default_yes,
        ensures
            final(self)@.wf(),
            final(self)@ == old(self)@.answered(line@).0,
            r@ == old(self)@.answered(line@).1,
    {
        let ghost pre = self@;
        let yes: bool = match read_yes_no(line, default_yes) {
            Some(yes) => yes,
            None => {
                return Act::Again;
            },
        };
        match self.stage {
            Stage::Reuse => if yes {
                self.stage = self.entry_stage(InitFile::Server);
                Act::Say("Reusing existing certificates.".to_owned())
            } else {
                self.stage = Stage::Renew;
                Act::Nothing
            },
            Stage::Renew => if yes {
                self.stage = Stage::Host(true);
                Act::Nothing
            } else {
                self.stage = self.entry_stage(InitFile::Server);
                Act::Nothing
            },
            Stage::Generate => if yes {
                self.stage = Stage::Host(self.force);
                Act::Nothing
            } else {
                self.stage = self.entry_stage(InitFile::Server);
                Act::Say("Skipping certificate generation.".to_owned())
            },
            Stage::Overwrite(file) => if yes {
                self.stage = Stage::Confirm(file);
                Act::Nothing
            } else {
                self.stage = self.stage_after(file);
                Act::Say(joined("Skipping ", file.file_name(), "."))
            },
            Stage::Confirm(file) => if yes {
                self.stage = Stage::Field(file, 0);
                self.answers = Vec::new();
                assert(self@.answers =~= Seq::empty());
                if file == InitFile::ClientTunnel {
                    Act::Say(
                        "  Tunnel mapping formats: port | local:remote | host:local:remote | host:local:remote:sni".to_owned(),
                    )
                } else {
                    Act::Nothing
                }
            } else {
                self.stage = self.stage_after(file);
                Act::Nothing
            },
            _ => Act::Nothing,
        }
    }

    /// Takes the line that answers the question.
    pub fn answer(&mut self, line: &str) -> (r: Act)
        requires
            old(self)@.wf(),
        ensures
            final(self)@.wf(),
            final(self)@ == old(self)@.answered(line@).0,
            r@ == old(self)@.answered(line@).1,
    {
        match self.stage {
            Stage::Host(replace) => {
                let host = read_text(line, self.default_host.as_str());
                self.tls_host = host.clone();
                self.stage = self.entry_stage(InitFile::Server);
                Act::Certs(host, replace)
            },
            Stage::Field(file, i) => self.answer_field(file, i, line),
            Stage::Overwrite(_) => self.answer_yes_no(line, false),
            Stage::Done => Act::Nothing,
            _ => self.answer_yes_no(line, true),
        }
    }
}

/// How many questions are left at most.
pub open spec fn questions_left(stage: Stage) -> nat {
    match stage {
        Stage::Reuse => 25,
        Stage::Renew => 24,
        Stage::Generate => 24,
        Stage::Host(_) => 23,
        Stage::Overwrite(file) => match file {
            InitFile::Server => 22,
            InitFile::ClientProxy => 15,
            InitFile::ClientTunnel => 8,
        },
        Stage::Confirm(file) => match file {
            InitFile::Server => 21,
            InitFile::ClientProxy => 14,
            InitFile::ClientTunnel => 7,
        },
        Stage::Field(file, i) => match file {
            InitFile::Server => (20 - i) as nat,
            InitFile::ClientProxy => (13 - i) as nat,
            InitFile::ClientTunnel => (6 - i) as nat,
        },
        Stage::Done => 0,
    }
}

/// Every answer that is understood leads on: there are at most twenty-five questions.
pub proof fn questions_end(w: WizardView, line: Seq<char>)
    requires
        w.wf(),
        w.stage != Stage::Done,
    ensures
        w.answered(line).1 is Again || questions_left(w.answered(line).0.stage) < questions_left(
            w.stage,
        ),
{
}

/// A file that is there is come to with the question whether to replace it, unless everything is
/// replaced: no other way leads to its values.
pub proof fn no_file_is_replaced_unasked(w: WizardView, line: Seq<char>, file: InitFile)
    requires
        w.wf(),
        w.present.holds(file),
        !w.force,
        w.answered(line).0.stage == Stage::Confirm(file),
        w.answered(line).0.stage != w.stage,
    ensures
        w.stage == Stage::Overwrite(file),
        init_dir::yes_no(line, false) == Some(true),
{
}

/// Only the last value of a file makes it be written.
pub proof fn files_are_written_when_answered(w: WizardView, line: Seq<char>, file: InitFile)
    requires
        w.wf(),
        w.answered(line).1 is Write,
        w.answered(line).1->Write_0 == file,
    ensures
        w.stage == Stage::Field(file, (field_count(file) - 1) as u8),
{
}

/// The answers to the questions for a file end up in it, each as the setting that was asked for;
/// a client without a tunnel is not written.
pub proof fn answers_end_up_in_the_file(w: WizardView, file: InitFile, line: Seq<char>)
    requires
        w.wf(),
        w.stage == Stage::Field(file, (field_count(file) - 1) as u8),
    ensures
        ({
            let (next, act) = w.answered(line);
            let a = next.answers;
            let i = field_count(file) - 1;
            &&& a.len() == field_count(file)
            &&& a.take(i) == w.answers
            &&& a[i] == init_dir::text_answer(line, w.field(file, i as u8).1)
            &&& file is ClientTunnel && init_dir::named_tunnels(a[4]).len() == 0 ==> act is Fail
            &&& !(file is ClientTunnel && init_dir::named_tunnels(a[4]).len() == 0) ==> {
                &&& act is Write
                &&& act->Write_0 == file
                &&& text::has_part(act->Write_1, init_dir::setting("cert"@, a[0]))
                &&& file is Server ==> {
                    &&& text::has_part(act->Write_1, init_dir::setting("key"@, a[1]))
                    &&& text::has_part(act->Write_1, init_dir::setting("listen"@, a[2]))
                    &&& text::has_part(act->Write_1, init_dir::setting("admin_listen"@, a[3]))
                    &&& text::has_part(act->Write_1, init_dir::setting("tunnel_port_range"@, a[4]))
                }
                &&& file is ClientProxy ==> {
                    &&& text::has_part(act->Write_1, init_dir::setting("tls_host"@, a[1]))
                    &&& text::has_part(act->Write_1, init_dir::setting("remote"@, a[2]))
                    &&& text::has_part(act->Write_1, init_dir::setting("listen"@, a[3]))
                    &&& text::has_part(act->Write_1, init_dir::setting("admin_listen"@, a[4]))
                }
                &&& file is ClientTunnel ==> {
                    &&& text::has_part(act->Write_1, init_dir::setting("tls_host"@, a[1]))
                    &&& text::has_part(act->Write_1, init_dir::setting("remote"@, a[2]))
                    &&& text::has_part(act->Write_1, init_dir::setting("tunnel_client_id"@, a[3]))
                    &&& text::has_part(act->Write_1, init_dir::setting("admin_listen"@, a[5]))
                }
            }
        }),
{
    let (next, act) = w.answered(line);
    let a = next.answers;
    let i = field_count(file) - 1;
    assert(a.take(i) =~= w.answers);
    match file {
        InitFile::Server => {
            init_dir::server_file_holds_its_settings(a[0], a[1], a[2], a[3], a[4]);
        },
        InitFile::ClientProxy => {
            init_dir::proxy_file_holds_its_settings(a[1], a[0], a[2], a[3], a[4]);
        },
        InitFile::ClientTunnel => {
            init_dir::tunnel_file_holds_its_settings(
                a[1],
                a[0],
                a[2],
                a[5],
                a[3],
                init_dir::named_tunnels(a[4]),
            );
        },
    }
}

/// The three files are come to one after the other: the server's, the proxy's and that of the
/// client with tunnels, each asked about in its turn, and then nothing more is asked.
pub proof fn files_come_one_after_the_other(w: WizardView, line: Seq<char>, file: InitFile)
    requires
        w.wf(),
        w.stage == Stage::Confirm(file),
    ensures
        ({
            let (next, act) = w.answered(line);
            let yes = init_dir::yes_no(line, true);
            &&& yes is None ==> next == w && act is Again
            &&& yes == Some(true) ==> next.stage == Stage::Field(file, 0) && next.answers.len() == 0
                && !(act is Write)
            &&& yes == Some(false) ==> !(act is Write) && match file {
                InitFile::Server => next.stage == Stage::Confirm(InitFile::ClientProxy)
                    || next.stage == Stage::Overwrite(InitFile::ClientProxy),
                InitFile::ClientProxy => next.stage == Stage::Confirm(InitFile::ClientTunnel)
                    || next.stage == Stage::Overwrite(InitFile::ClientTunnel),
                InitFile::ClientTunnel => next.stage == Stage::Done,
            }
        }),
{
}

/// The host that is asked for is the one that the certificate is made for and that the clients are
/// told; certificates that are there are replaced only after a yes to making new ones.
pub proof fn certificates_are_made_for_the_host(w: WizardView, line: Seq<char>)
    requires
        w.wf(),
        w.answered(line).1 is Certs,
    ensures
        w.stage is Host,
        w.answered(line).1->Certs_0 == init_dir::text_answer(line, w.default_host),
        w.answered(line).0.tls_host == w.answered(line).1->Certs_0,
        w.answered(line).1->Certs_1 == w.stage->Host_0,
{
}

/// Certificates that are there are kept unless they are not to be reused and new ones are wanted.
pub proof fn certificates_are_kept_unless_renewed(w: WizardView, line: Seq<char>)
    requires
        w.wf(),
        w.stage == Stage::Reuse,
    ensures
        init_dir::yes_no(line, true) == Some(true) ==> !(w.answered(line).0.stage is Host)
            && !(w.answered(line).0.stage is Renew),
        init_dir::yes_no(line, true) == Some(false) ==> w.answered(line).0.stage == Stage::Renew,
        w.at(Stage::Renew).answered(line).0.stage is Host <==> init_dir::yes_no(line, true) == Some(
            true,
        ),
        !(w.answered(line).1 is Certs),
{
}

/// The first question is about certificates: whether to keep those that are there, whether to make
/// some where there are none, or which host they are for where everything is replaced.
pub proof fn certificates_come_first(
    w: WizardView,
    dir: OutputDir,
    default_host: Seq<char>,
    force: bool,
    present: Present,
)
    requires
        begins(w, dir, default_host, force, present),
    ensures
        w.stage is Reuse <==> present.certs && !force,
        w.stage is Generate <==> !present.certs && !force,
        w.stage is Host <==> force,
        force ==> w.stage->Host_0,
        w.default_host == default_host && w.tls_host == default_host,
        w.cert == init_dir::cert_path(dir) && w.key == init_dir::key_path(dir),
        w.present == present && w.force == force,
        w.answers.len() == 0,
{
}

/// A file that is there is asked for only after a yes; after a no, also an empty answer, it is
/// passed over and the next one is come to. Nothing is written either way.
pub proof fn file_that_is_there_is_replaced_or_passed_over(
    w: WizardView,
    line: Seq<char>,
    file: InitFile,
)
    requires
        w.wf(),
        w.stage == Stage::Overwrite(file),
    ensures
        ({
            let (next, act) = w.answered(line);
            let yes = init_dir::yes_no(line, false);
            &&& !(act is Write)
            &&& yes is None ==> next == w && act is Again
            &&& yes == Some(true) ==> next == (WizardView { stage: Stage::Confirm(file), ..w })
            &&& yes == Some(false) ==> act is Say && match file {
                InitFile::Server => next.stage == Stage::Confirm(InitFile::ClientProxy)
                    || next.stage == Stage::Overwrite(InitFile::ClientProxy),
                InitFile::ClientProxy => next.stage == Stage::Confirm(InitFile::ClientTunnel)
                    || next.stage == Stage::Overwrite(InitFile::ClientTunnel),
                InitFile::ClientTunnel => next.stage == Stage::Done,
            }
        }),
{
}

/// A file that is not there is never asked about as one to be replaced, and none is where
/// everything is replaced.
pub proof fn only_files_that_are_there_are_asked_about(
    w: WizardView,
    line: Seq<char>,
    file: InitFile,
)
    requires
        w.wf(),
        w.answered(line).0.stage == Stage::Overwrite(file),
        w.stage != Stage::Overwrite(file),
    ensures
        w.present.holds(file),
        !w.force,
{
}

/// Where there are no certificates they are made after a yes, without replacing any, and after a
/// no the server's file is come to.
pub proof fn missing_certificates_are_made_if_wanted(w: WizardView, line: Seq<char>)
    requires
        w.wf(),
        w.stage == Stage::Generate,
        !w.force,
    ensures
        ({
            let (next, act) = w.answered(line);
            let yes = init_dir::yes_no(line, true);
            &&& !(act is Certs)
            &&& yes is None ==> next == w && act is Again
            &&& yes == Some(true) ==> next.stage == Stage::Host(false)
            &&& yes == Some(false) ==> act is Say && (next.stage == Stage::Confirm(InitFile::Server)
                || next.stage == Stage::Overwrite(InitFile::Server))
        }),
{
}

/// Each value is kept behind those before it, and the next one is asked for; a question that is
/// answered with nothing is answered with what it proposes.
pub proof fn values_are_collected_in_order(w: WizardView, line: Seq<char>, file: InitFile, i: u8)
    requires
        w.wf(),
        w.stage == Stage::Field(file, i),
    ensures
        ({
            let (next, act) = w.answered(line);
            &&& w.question() is Text
            &&& next.answers.len() == i + 1
            &&& next.answers.take(i as int) == w.answers
            &&& next.answers[i as int] == init_dir::text_answer(line, w.question()->Text_1)
            &&& next.tls_host == w.tls_host && next.cert == w.cert && next.key == w.key
            &&& next.stage == Stage::Field(file, (i + 1) as u8) <==> i + 1 < field_count(file)
            &&& i + 1 < field_count(file) ==> act is Nothing
        }),
{
    assert(w.answered(line).0.answers.take(i as int) =~= w.answers);
}

/// Every file proposes the certificate that was made; the server's proposes its key, and the
/// clients' the host that the certificate is for.
pub proof fn made_certificates_are_proposed(w: WizardView, file: InitFile)
    ensures
        w.at(Stage::Field(file, 0)).question() == QuestionView::Text("  cert path"@, w.cert),
        file is Server ==> w.at(Stage::Field(file, 1)).question() == QuestionView::Text(
            "  key path"@,
            w.key,
        ),
        !(file is Server) ==> w.at(Stage::Field(file, 1)).question() == QuestionView::Text(
            "  tls_host (runtime SNI)"@,
            w.tls_host,
        ),
        field_count(file) == (if file is ClientTunnel {
            6u8
        } else {
            5u8
        }),
{
}

} // verus!
