use vstd::prelude::*;

verus! {

//==============================================================================================
//        Errors
//==============================================================================================

/// The errors that the rules engine's own logic reports.
#[derive(Debug)]
pub enum FreError {
    MultipleErrors(Vec<FreError>),
    LuaConversionError(LuaConversionError),
    SchemaError(SchemaError),
    BuildError(BuildError),
    ConstructorError(ConstructorError),
    SettingsVariableTypeMismatch(String, String),
    InvalidDepencyString(String),
    FileTypeNotValidAsset(String),
    MissingMimeType(String),
    CannotRegisterType(String),
    IdentifierTypeMismatch(String, String),
    ImageError(String),
}

/// A step of a constructor was asked for and is not there.
#[derive(Debug)]
pub enum ConstructorError {
    ConstructorAttemptToIndexEmptyStep(usize),
}

/// A value did not have the shape a schema asks for.
#[derive(Debug)]
pub enum SchemaError {
    TypeMismatch { expected: String, actual: String, path: String },
    MissingKey { key: String, path: String },
}

/// A Lua value could not be turned into the type asked for.
#[derive(Debug)]
pub enum LuaConversionError {
    FromLuaError { from: String, to: String },
}

/// A rulebook could not be built from the given path.
#[derive(Debug)]
pub enum BuildError {
    BuildPathMustBeFolder(String),
    BuildFileNotFound(String),
}

} // verus!
