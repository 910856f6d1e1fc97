//! The model-visible notice that a background code cell completed.
use vstd::prelude::*;
use vstd::string::StringExecFns;

verus! {

/// The text between the markers of a code cell completion notice for cell `cell_id`.
pub open spec fn code_cell_completion_body(cell_id: Seq<char>) -> Seq<char> {
    "\n<cell_id>"@ + cell_id
        + "</cell_id>\n<instruction>The background code cell completed. Call functions.wait exactly once with this cell_id to retrieve its terminal result before continuing.</instruction>\n"@
}

/// Tells the model that a background code cell completed and how to collect its result.
#[derive(Debug, Clone, PartialEq)]
pub struct CodeCellCompletion {
    pub cell_id: String,
}

impl CodeCellCompletion {
    /// The notice for cell `cell_id`.
    pub fn new(cell_id: String) -> (completion: Self)
        ensures
            completion.cell_id@ == cell_id@,
    {
        Self { cell_id }
    }

    /// The conversation role the notice is sent with.
    pub fn role(&self) -> (role: &'static str)
        ensures
            role@ == "user"@,
    {
        "user"
    }

    /// The opening and closing markers of this notice.
    pub fn markers(&self) -> (markers: (&'static str, &'static str))
        ensures
            markers.0@ == "<code_cell_completion>"@,
            markers.1@ == "</code_cell_completion>"@,
    {
        Self::type_markers()
    }

    /// The opening and closing markers of every code cell completion notice.
    pub fn type_markers() -> (markers: (&'static str, &'static str))
        ensures
            markers.0@ == "<code_cell_completion>"@,
            markers.1@ == "</code_cell_completion>"@,
    {
        ("<code_cell_completion>", "</code_cell_completion>")
    }

    /// The notice's text: the cell id and the instruction to wait for the cell exactly once.
    pub fn body(&self) -> (body: String)
        ensures
            body@ == code_cell_completion_body(self.cell_id@),
    {
        let mut body = String::from_str("\n<cell_id>");
        body.append(self.cell_id.as_str());
        body.append(
            "</cell_id>\n<instruction>The background code cell completed. Call functions.wait exactly once with this cell_id to retrieve its terminal result before continuing.</instruction>\n",
        );
        body
    }
}

} // verus!
