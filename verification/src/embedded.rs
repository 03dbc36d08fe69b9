//! The helper programs that ship with the window manager: their names, the
//! bytes of their executables, and what has to happen before one can run.

use vstd::prelude::*;

verus! {

/// The helper programs.
#[derive(Debug, Clone, Copy, PartialEq, Eq, Hash, Structural)]
pub enum BuiltinProgram {
    Zebar,
}

/// Why a helper program could not be handled.
#[derive(Debug, Clone, Copy, PartialEq, Eq, Structural)]
pub enum BuiltinError {
    /// The name is not that of a helper program.
    UnknownProgram,
    /// The executable of the program is not among the embedded ones.
    NotAvailable,
}

/// The bytes of the executables that were embedded when the window manager
/// was built. An executable that was not built is empty.
#[derive(Debug)]
pub struct EmbeddedBinaries {
    pub zebar: Vec<u8>,
}

/// What has to be done to have the executable of a helper program on disk.
#[derive(Debug, Clone, Copy)]
pub struct ExtractionPlan {
    /// The name of the file in the directory of the helper programs.
    pub exe_name: &'static str,
    /// Whether the bytes have to be written: the file is missing, or its
    /// size is not that of the embedded executable.
    pub needs_extraction: bool,
}

/// The lowercase form of a string, as the standard library computes it.
pub uninterp spec fn lowercase_of(s: Seq<char>) -> Seq<char>;

/// `str::to_lowercase` of the standard library: the result is the
/// lowercase form of the argument, which depends on the argument alone.
#[verifier::external_body]
fn to_lowercase(s: &str) -> (r: String)
    ensures
        r@ == lowercase_of(s@),
{
    s.to_lowercase()
}

impl BuiltinProgram {
    /// The program with the given name, where the name is in lowercase.
    pub open spec fn named(lowered: Seq<char>) -> Option<BuiltinProgram> {
        if lowered == "zebar"@ {
            Some(BuiltinProgram::Zebar)
        } else {
            None
        }
    }

    /// The name of the executable of the program.
    pub open spec fn spec_exe_name(self) -> Seq<char> {
        match self {
            BuiltinProgram::Zebar => "zebar.exe"@,
        }
    }

    /// The embedded bytes of the program.
    pub open spec fn spec_binary_data(self, embedded: &EmbeddedBinaries) -> Seq<u8> {
        match self {
            BuiltinProgram::Zebar => embedded.zebar@,
        }
    }

    /// The program whose name, in lowercase, is `lowered`.
    pub fn from_lowercase(lowered: &str) -> (r: Option<BuiltinProgram>)
        ensures
            r == Self::named(lowered@),
    {
        let given: String = lowered.to_owned();
        let zebar: String = "zebar".to_owned();
        if given == zebar {
            Some(BuiltinProgram::Zebar)
        } else {
            None
        }
    }

    /// The program with the name `s`, whatever the case of its letters.
    pub fn from_str(s: &str) -> (r: Option<BuiltinProgram>)
        ensures
            r == Self::named(lowercase_of(s@)),
    {
        let lowered = to_lowercase(s);
        Self::from_lowercase(lowered.as_str())
    }

    /// The name of the executable of the program.
    pub fn exe_name(&self) -> (r: &'static str)
        ensures
            r@ == self.spec_exe_name(),
    {
        match self {
            BuiltinProgram::Zebar => "zebar.exe",
        }
    }

    /// The embedded bytes of the program.
    pub fn binary_data<'a>(&self, embedded: &'a EmbeddedBinaries) -> (r: &'a [u8])
        ensures
            r@ == self.spec_binary_data(embedded),
    {
        match self {
            BuiltinProgram::Zebar => embedded.zebar.as_slice(),
        }
    }

    /// Whether the executable of the program was embedded.
    pub fn is_available(&self, embedded: &EmbeddedBinaries) -> (r: bool)
        ensures
            r == (self.spec_binary_data(embedded).len() > 0),
    {
        self.binary_data(embedded).len() > 0
    }
}

/// The helper programs whose executables were embedded.
pub fn available_builtins(embedded: &EmbeddedBinaries) -> (r: Vec<BuiltinProgram>)
    ensures
        r@ == if BuiltinProgram::Zebar.spec_binary_data(embedded).len() > 0 {
            seq![BuiltinProgram::Zebar]
        } else {
            Seq::<BuiltinProgram>::empty()
        },
{
    let mut found: Vec<BuiltinProgram> = Vec::new();
    if BuiltinProgram::Zebar.is_available(embedded) {
        found.push(BuiltinProgram::Zebar);
    }
    assert(found@ =~= if BuiltinProgram::Zebar.spec_binary_data(embedded).len() > 0 {
        seq![BuiltinProgram::Zebar]
    } else {
        Seq::<BuiltinProgram>::empty()
    });
    found
}

/// Whether the executable has to be written to disk: `existing_size` is the
/// size of the file that is there, `None` where there is none.
pub fn needs_extraction(existing_size: Option<u64>, data_len: usize) -> (r: bool)
    ensures
        r == (existing_size != Some(data_len as u64)),
{
    match existing_size {
        Some(size) => size != data_len as u64,
        None => true,
    }
}

/// Decides what has to be done to have the executable of `program` on
/// disk. Fails with `NotAvailable` where the executable was not embedded.
pub fn extract_builtin(
    program: BuiltinProgram,
    embedded: &EmbeddedBinaries,
    existing_size: Option<u64>,
) -> (r: Result<ExtractionPlan, BuiltinError>)
    ensures
        match r {
            Ok(plan) => program.spec_binary_data(embedded).len() > 0 && plan.exe_name@
                == program.spec_exe_name() && plan.needs_extraction == (existing_size != Some(
                program.spec_binary_data(embedded).len() as u64,
            )),
            Err(e) => e == BuiltinError::NotAvailable && program.spec_binary_data(embedded).len()
                == 0,
        },
{
    if !program.is_available(embedded) {
        return Err(BuiltinError::NotAvailable);
    }
    let data = program.binary_data(embedded);
    Ok(
        ExtractionPlan {
            exe_name: program.exe_name(),
            needs_extraction: needs_extraction(existing_size, data.len()),
        },
    )
}

} // verus!
