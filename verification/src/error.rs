//! The library's error type.

use vstd::prelude::*;

verus! {

/// Everything that can go wrong while ingesting records or driving the
/// engine.  Engine failures carry the engine's message as text.
#[derive(Debug)]
pub enum FindCmdletError {
    MissingMetaDataStart,
    MissingMetaDataEnd,
    UnexpectedMetaData,
    MissingCmdletName,
    MissingCmdletUrl,
    MissingModuleName,
    MissingModuleVersion,
    MissingModJson(String, String, String),
    MissingCmdDir(String, String, String),
    MissingHelpDir(String, String, String),
    MissingCommandFileName(String, String, String),
    MissingHelpText(String, String, String, String),
    TantivyError(String),
}

/// The message of an error that names a module, a version and a path.
pub open spec fn spec_module_message(
    prefix: Seq<char>,
    name: Seq<char>,
    version: Seq<char>,
    path: Seq<char>,
) -> Seq<char> {
    prefix + name + " ["@ + version + "]: "@ + path
}

impl FindCmdletError {
    /// The human-readable message of the error.
    pub open spec fn spec_message(self) -> Seq<char> {
        match self {
            FindCmdletError::MissingMetaDataStart => "Missing metadata start for file"@,
            FindCmdletError::MissingMetaDataEnd => "Missing metadata end for file"@,
            FindCmdletError::UnexpectedMetaData => "Unexpected metadata format"@,
            FindCmdletError::MissingCmdletName => "Missing cmdlet name in metadata"@,
            FindCmdletError::MissingCmdletUrl => "Missing cmdlet URL in metadata"@,
            FindCmdletError::MissingModuleName => "Missing module name in metadata"@,
            FindCmdletError::MissingModuleVersion => "Missing module version in metadata"@,
            FindCmdletError::MissingModJson(name, version, file) => spec_module_message(
                "Missing mod.json file for module "@,
                name@,
                version@,
                file@,
            ),
            FindCmdletError::MissingCmdDir(name, version, dir) => spec_module_message(
                "Missing command directory for module "@,
                name@,
                version@,
                dir@,
            ),
            FindCmdletError::MissingHelpDir(name, version, dir) => spec_module_message(
                "Missing help directory for module "@,
                name@,
                version@,
                dir@,
            ),
            FindCmdletError::MissingCommandFileName(name, version, file) => spec_module_message(
                "Missing file name for command in module "@,
                name@,
                version@,
                file@,
            ),
            FindCmdletError::MissingHelpText(command, name, version, file) => "Missing help text for command in "@
                + command@ + " in module "@ + name@ + " ["@ + version@ + "]: "@ + file@,
            FindCmdletError::TantivyError(text) => text@,
        }
    }

    /// Renders the human-readable message of the error.
    pub fn message(&self) -> (r: String)
        ensures
            r@ == self.spec_message(),
    {
        match self {
            FindCmdletError::MissingMetaDataStart => String::from_str(
                "Missing metadata start for file",
            ),
            FindCmdletError::MissingMetaDataEnd => String::from_str(
                "Missing metadata end for file",
            ),
            FindCmdletError::UnexpectedMetaData => String::from_str("Unexpected metadata format"),
            FindCmdletError::MissingCmdletName => String::from_str(
                "Missing cmdlet name in metadata",
            ),
            FindCmdletError::MissingCmdletUrl => String::from_str(
                "Missing cmdlet URL in metadata",
            ),
            FindCmdletError::MissingModuleName => String::from_str(
                "Missing module name in metadata",
            ),
            FindCmdletError::MissingModuleVersion => String::from_str(
                "Missing module version in metadata",
            ),
            FindCmdletError::MissingModJson(name, version, file) => module_message(
                "Missing mod.json file for module ",
                name,
                version,
                file,
            ),
            FindCmdletError::MissingCmdDir(name, version, dir) => module_message(
                "Missing command directory for module ",
                name,
                version,
                dir,
            ),
            FindCmdletError::MissingHelpDir(name, version, dir) => module_message(
                "Missing help directory for module ",
                name,
                version,
                dir,
            ),
            FindCmdletError::MissingCommandFileName(name, version, file) => module_message(
                "Missing file name for command in module ",
                name,
                version,
                file,
            ),
            FindCmdletError::MissingHelpText(command, name, version, file) => {
                let mut r = String::from_str("Missing help text for command in ");
                r.append(command.as_str());
                r.append(" in module ");
                r.append(name.as_str());
                r.append(" [");
                r.append(version.as_str());
                r.append("]: ");
                r.append(file.as_str());
                r
            },
            FindCmdletError::TantivyError(text) => text.clone(),
        }
    }
}

/// Renders a message that names a module, a version and a path.
fn module_message(prefix: &str, name: &String, version: &String, path: &String) -> (r: String)
    ensures
        r@ == spec_module_message(prefix@, name@, version@, path@),
{
    let mut r = String::from_str(prefix);
    r.append(name.as_str());
    r.append(" [");
    r.append(version.as_str());
    r.append("]: ");
    r.append(path.as_str());
    r
}

} // verus!
