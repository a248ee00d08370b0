use vstd::prelude::*;
use vstd::string::StringExecFns;

verus! {

/// What can go wrong between a request and its answer.
#[derive(Debug, Clone)]
pub enum ModelError {
    /// The elements and relationships do not make a graph.
    ModelGraphBuildingError(String),
    /// No model under this id and version.
    ModelNotFound(String, String),
    /// What was found holds no model.
    UnableToReadModel,
    /// The caller's parameters are missing or contradict each other.
    InvalidInput(String),
    /// A target id or a pointer found nothing to work on.
    ParsingError(String),
}

impl ModelError {
    /// The message that `to_string` gives.
    pub open spec fn text(self) -> Seq<char> {
        match self {
            ModelError::ModelGraphBuildingError(err) => "Error building model graph: "@ + err@,
            ModelError::ModelNotFound(model, version) => "Model "@ + model@ + " with version "@
                + version@ + " not found"@,
            ModelError::InvalidInput(err) => "Invalid input, "@ + err@,
            ModelError::ParsingError(err) => "Unable to parse "@ + err@,
            ModelError::UnableToReadModel => "Unable to read model"@,
        }
    }

    /// The message for the user, with the id or version that it is about.
    pub fn to_string(&self) -> (message: String)
        ensures
            message@ == self.text(),
    {
        match self {
            ModelError::ModelGraphBuildingError(err) => {
                let mut message = "Error building model graph: ".to_owned();
                message.append(err.as_str());
                message
            },
            ModelError::ModelNotFound(model, version) => {
                let mut message = "Model ".to_owned();
                message.append(model.as_str());
                message.append(" with version ");
                message.append(version.as_str());
                message.append(" not found");
                message
            },
            ModelError::InvalidInput(err) => {
                let mut message = "Invalid input, ".to_owned();
                message.append(err.as_str());
                message
            },
            ModelError::ParsingError(err) => {
                let mut message = "Unable to parse ".to_owned();
                message.append(err.as_str());
                message
            },
            ModelError::UnableToReadModel => "Unable to read model".to_owned(),
        }
    }
}

} // verus!
