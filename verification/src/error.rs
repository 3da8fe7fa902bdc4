//! The errors of the application and how each is answered.

use vstd::prelude::*;
use vstd::string::*;

verus! {

/// What can go wrong while loading catalogs or answering a request.
#[derive(Debug)]
pub enum AppError {
    /// A template is missing or failed to render.
    Template(String),
    /// The translation document is unreadable, unparsable or empty.
    Language(String),
    /// An input or output operation failed.
    Io(String),
    /// An unknown feature or route was asked for.
    NotFound(String),
    /// Any other failure inside the server.
    Internal(String),
}

impl AppError {
    /// The text carried by the error.
    pub open spec fn spec_message(&self) -> Seq<char> {
        match self {
            AppError::Template(m) => m@,
            AppError::Language(m) => m@,
            AppError::Io(m) => m@,
            AppError::NotFound(m) => m@,
            AppError::Internal(m) => m@,
        }
    }

    /// The status that answers the error: 404 for what was not found, 500 otherwise.
    pub open spec fn spec_status(&self) -> u16 {
        match self {
            AppError::NotFound(_) => 404,
            _ => 500,
        }
    }

    /// The words that introduce each kind of error in its description.
    pub open spec fn spec_label(&self) -> Seq<char> {
        match self {
            AppError::Template(_) => "Template error: "@,
            AppError::Language(_) => "Language error: "@,
            AppError::Io(_) => "IO error: "@,
            AppError::NotFound(_) => "Not found: "@,
            AppError::Internal(_) => "Internal server error: "@,
        }
    }

    /// The error for a template that could not be loaded.
    pub fn template_load_failure(template_name: &str, cause: &str) -> (r: AppError)
        ensures
            r matches AppError::Template(m) && m@ == "Failed to load template '"@ + template_name@
                + "': "@ + cause@,
    {
        AppError::Template(
            String::from_str("Failed to load template '").concat(template_name).concat(
                "': ",
            ).concat(cause),
        )
    }

    /// The error for a template that could not be rendered.
    pub fn template_render_failure(template_name: &str, cause: &str) -> (r: AppError)
        ensures
            r matches AppError::Template(m) && m@ == "Failed to render template '"@
                + template_name@ + "': "@ + cause@,
    {
        AppError::Template(
            String::from_str("Failed to render template '").concat(template_name).concat(
                "': ",
            ).concat(cause),
        )
    }

    /// The error for a language document that could not be read.
    pub fn unreadable_document(cause: &str) -> (r: AppError)
        ensures
            r matches AppError::Language(m) && m@ == "Failed to read lang.json: "@ + cause@,
    {
        AppError::Language(String::from_str("Failed to read lang.json: ").concat(cause))
    }

    /// The error for a route that leads nowhere.
    pub fn unknown_route(uri: &str) -> (r: AppError)
        ensures
            r matches AppError::NotFound(m) && m@ == "Not found: "@ + uri@,
    {
        AppError::NotFound(String::from_str("Not found: ").concat(uri))
    }

    /// The text carried by the error, which is the body of the response.
    pub fn message(&self) -> (r: String)
        ensures
            r@ == self.spec_message(),
    {
        match self {
            AppError::Template(m) => m.clone(),
            AppError::Language(m) => m.clone(),
            AppError::Io(m) => m.clone(),
            AppError::NotFound(m) => m.clone(),
            AppError::Internal(m) => m.clone(),
        }
    }

    /// The status code of the response.
    pub fn status_code(&self) -> (r: u16)
        ensures
            r == self.spec_status(),
    {
        match self {
            AppError::NotFound(_) => 404,
            _ => 500,
        }
    }

    /// The kind of error followed by its text.
    pub fn describe(&self) -> (r: String)
        ensures
            r@ == self.spec_label() + self.spec_message(),
    {
        let label = match self {
            AppError::Template(_) => "Template error: ",
            AppError::Language(_) => "Language error: ",
            AppError::Io(_) => "IO error: ",
            AppError::NotFound(_) => "Not found: ",
            AppError::Internal(_) => "Internal server error: ",
        };
        let text = self.message();
        String::from_str(label).concat(text.as_str())
    }

    /// Status code and body of the response that answers the error.
    pub fn into_response(self) -> (r: (u16, String))
        ensures
            r.0 == self.spec_status(),
            r.1@ == self.spec_message(),
    {
        (self.status_code(), self.message())
    }
}

} // verus!
