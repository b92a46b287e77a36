//! Launch commands of the Windows Site and Storage processes and their
//! errors. A command names a non-empty program and at most a bounded number
//! of arguments; launching it is the host's business.
use crate::text::{decimal, push_decimal, push_str};
use vstd::prelude::*;

verus! {

/// The most arguments a Site-process command carries.
pub const DEFAULT_MAX_SITE_PROCESS_ARGS: usize = 64;

/// The most arguments a Storage-process command carries.
pub const DEFAULT_MAX_STORAGE_PROCESS_ARGS: usize = 64;

#[derive(Clone, Copy, Debug, PartialEq, Eq, Structural)]
pub enum WindowsSiteProcessErrorKind {
    UnsupportedTarget,
    EmptyProgram,
    ArgumentLimitExceeded,
    UnknownSiteProcess,
    LaunchFailed,
    WaitFailed,
    HostControl,
}

#[derive(Clone, Debug, PartialEq, Eq)]
pub struct WindowsSiteProcessError {
    pub kind: WindowsSiteProcessErrorKind,
    pub message: String,
}

impl WindowsSiteProcessError {
    fn new(kind: WindowsSiteProcessErrorKind, message: String) -> (r: Self)
        ensures
            r.kind == kind,
            r.message@ == message@,
    {
        WindowsSiteProcessError { kind, message }
    }

    /// The error raised where Site processes cannot be launched.
    pub fn unsupported_target() -> (r: Self)
        ensures
            r.kind == WindowsSiteProcessErrorKind::UnsupportedTarget,
            r.message@ == "Windows Site-process launch is unavailable on this target"@,
    {
        Self::new(
            WindowsSiteProcessErrorKind::UnsupportedTarget,
            "Windows Site-process launch is unavailable on this target".to_owned(),
        )
    }

    /// The error's message.
    pub fn to_string(&self) -> (r: String)
        ensures
            r@ == self.message@,
    {
        self.message.clone()
    }
}

/// A Site-process launch command: a non-empty program and at most
/// `DEFAULT_MAX_SITE_PROCESS_ARGS` arguments.
#[derive(Clone, Debug, PartialEq, Eq)]
pub struct WindowsSiteProcessCommand {
    program: String,
    args: Vec<String>,
}

impl WindowsSiteProcessCommand {
    pub closed spec fn spec_program(&self) -> Seq<char> {
        self.program@
    }

    pub closed spec fn spec_args(&self) -> Seq<Seq<char>> {
        self.args@.map_values(|a: String| a@)
    }

    /// A command for `program` with no arguments; refused with
    /// `EmptyProgram` for an empty program.
    pub fn try_new(program: &str) -> (r: Result<Self, WindowsSiteProcessError>)
        ensures
            program@.len() > 0 <==> r is Ok,
            r matches Ok(command) ==> command.spec_program() == program@
                && command.spec_args().len() == 0,
            r matches Err(e) ==> e.kind == WindowsSiteProcessErrorKind::EmptyProgram
                && e.message@ == "Site-process program must not be empty"@,
    {
        if program.unicode_len() == 0 {
            return Err(
                WindowsSiteProcessError::new(
                    WindowsSiteProcessErrorKind::EmptyProgram,
                    "Site-process program must not be empty".to_owned(),
                ),
            );
        }
        let command = WindowsSiteProcessCommand { program: program.to_owned(), args: Vec::new() };
        proof {
            assert(command.spec_args() =~= Seq::<Seq<char>>::empty());
        }
        Ok(command)
    }

    /// The command with `argument` appended; refused with
    /// `ArgumentLimitExceeded` once it carries the maximum.
    pub fn try_arg(self, argument: &str) -> (r: Result<Self, WindowsSiteProcessError>)
        ensures
            self.spec_args().len() < DEFAULT_MAX_SITE_PROCESS_ARGS <==> r is Ok,
            r matches Ok(command) ==> command.spec_program() == self.spec_program()
                && command.spec_args() == self.spec_args().push(argument@),
            r matches Err(e) ==> e.kind == WindowsSiteProcessErrorKind::ArgumentLimitExceeded
                && e.message@ == "Site-process argument limit "@ + decimal(
                DEFAULT_MAX_SITE_PROCESS_ARGS as nat,
            ) + " reached"@,
    {
        if self.args.len() >= DEFAULT_MAX_SITE_PROCESS_ARGS {
            let mut message = "Site-process argument limit ".to_owned();
            push_decimal(&mut message, DEFAULT_MAX_SITE_PROCESS_ARGS);
            push_str(&mut message, " reached");
            return Err(
                WindowsSiteProcessError::new(WindowsSiteProcessErrorKind::ArgumentLimitExceeded, message),
            );
        }
        let mut command = self;
        let ghost before = command.args@;
        command.args.push(argument.to_owned());
        proof {
            assert(command.args@.map_values(|a: String| a@) =~= before.map_values(|a: String| a@).push(
                argument@,
            ));
        }
        Ok(command)
    }

    pub fn program(&self) -> (r: &str)
        ensures
            r@ == self.spec_program(),
    {
        self.program.as_str()
    }

    /// The arguments, in order.
    pub fn args(&self) -> (r: &[String])
        ensures
            r@.map_values(|a: String| a@) == self.spec_args(),
    {
        self.args.as_slice()
    }
}

#[derive(Clone, Copy, Debug, PartialEq, Eq, Structural)]
pub enum WindowsStorageProcessErrorKind {
    UnsupportedTarget,
    EmptyProgram,
    ArgumentLimitExceeded,
    UnknownStorageProcess,
    LaunchFailed,
    WaitFailed,
    HostControl,
    SandboxEvidence,
}

#[derive(Clone, Debug, PartialEq, Eq)]
pub struct WindowsStorageProcessError {
    pub kind: WindowsStorageProcessErrorKind,
    pub message: String,
}

impl WindowsStorageProcessError {
    fn new(kind: WindowsStorageProcessErrorKind, message: String) -> (r: Self)
        ensures
            r.kind == kind,
            r.message@ == message@,
    {
        WindowsStorageProcessError { kind, message }
    }

    /// The error raised where Storage processes cannot be launched.
    pub fn unsupported_target() -> (r: Self)
        ensures
            r.kind == WindowsStorageProcessErrorKind::UnsupportedTarget,
            r.message@ == "Windows Storage-process launch is unavailable on this target"@,
    {
        Self::new(
            WindowsStorageProcessErrorKind::UnsupportedTarget,
            "Windows Storage-process launch is unavailable on this target".to_owned(),
        )
    }

    /// The error's message.
    pub fn to_string(&self) -> (r: String)
        ensures
            r@ == self.message@,
    {
        self.message.clone()
    }
}

/// A Storage-process launch command: a non-empty program and at most
/// `DEFAULT_MAX_STORAGE_PROCESS_ARGS` arguments.
#[derive(Clone, Debug, PartialEq, Eq)]
pub struct WindowsStorageProcessCommand {
    program: String,
    args: Vec<String>,
}

impl WindowsStorageProcessCommand {
    pub closed spec fn spec_program(&self) -> Seq<char> {
        self.program@
    }

    pub closed spec fn spec_args(&self) -> Seq<Seq<char>> {
        self.args@.map_values(|a: String| a@)
    }

    /// A command for `program` with no arguments; refused with
    /// `EmptyProgram` for an empty program.
    pub fn try_new(program: &str) -> (r: Result<Self, WindowsStorageProcessError>)
        ensures
            program@.len() > 0 <==> r is Ok,
            r matches Ok(command) ==> command.spec_program() == program@
                && command.spec_args().len() == 0,
            r matches Err(e) ==> e.kind == WindowsStorageProcessErrorKind::EmptyProgram
                && e.message@ == "Storage-process program must not be empty"@,
    {
        if program.unicode_len() == 0 {
            return Err(
                WindowsStorageProcessError::new(
                    WindowsStorageProcessErrorKind::EmptyProgram,
                    "Storage-process program must not be empty".to_owned(),
                ),
            );
        }
        let command = WindowsStorageProcessCommand { program: program.to_owned(), args: Vec::new() };
        proof {
            assert(command.spec_args() =~= Seq::<Seq<char>>::empty());
        }
        Ok(command)
    }

    /// The command with `argument` appended; refused with
    /// `ArgumentLimitExceeded` once it carries the maximum.
    pub fn try_arg(self, argument: &str) -> (r: Result<Self, WindowsStorageProcessError>)
        ensures
            self.spec_args().len() < DEFAULT_MAX_STORAGE_PROCESS_ARGS <==> r is Ok,
            r matches Ok(command) ==> command.spec_program() == self.spec_program()
                && command.spec_args() == self.spec_args().push(argument@),
            r matches Err(e) ==> e.kind == WindowsStorageProcessErrorKind::ArgumentLimitExceeded
                && e.message@ == "Storage-process argument limit "@ + decimal(
                DEFAULT_MAX_STORAGE_PROCESS_ARGS as nat,
            ) + " reached"@,
    {
        if self.args.len() >= DEFAULT_MAX_STORAGE_PROCESS_ARGS {
            let mut message = "Storage-process argument limit ".to_owned();
            push_decimal(&mut message, DEFAULT_MAX_STORAGE_PROCESS_ARGS);
            push_str(&mut message, " reached");
            return Err(
                WindowsStorageProcessError::new(
                    WindowsStorageProcessErrorKind::ArgumentLimitExceeded,
                    message,
                ),
            );
        }
        let mut command = self;
        let ghost before = command.args@;
        command.args.push(argument.to_owned());
        proof {
            assert(command.args@.map_values(|a: String| a@) =~= before.map_values(|a: String| a@).push(
                argument@,
            ));
        }
        Ok(command)
    }

    pub fn program(&self) -> (r: &str)
        ensures
            r@ == self.spec_program(),
    {
        self.program.as_str()
    }

    /// The arguments, in order.
    pub fn args(&self) -> (r: &[String])
        ensures
            r@.map_values(|a: String| a@) == self.spec_args(),
    {
        self.args.as_slice()
    }
}

} // verus!
