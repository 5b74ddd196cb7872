use vstd::prelude::*;

verus! {

/// A request to add a peer.
#[derive(Debug)]
pub struct AddPeerReq {
    pub address: String,
    pub token: String,
    pub shareable: Option<bool>,
}

/// The query of a peer listing: the node asking, if any.
#[derive(Debug)]
pub struct ListPeersQuery {
    pub node_id: Option<String>,
}

impl Default for ListPeersQuery {
    fn default() -> (q: Self)
        ensures
            q.node_id is None,
    {
        ListPeersQuery { node_id: None }
    }
}

/// The envelope of every API answer.
#[derive(Debug)]
pub struct ApiResponse<T> {
    pub message: String,
    pub data: Option<T>,
}

/// A request to download one address.
#[derive(Debug)]
pub struct SubmitTaskReq {
    pub url: String,
    pub file_name: Option<String>,
    pub save_dir: String,
    pub force: Option<bool>,
}

/// The id of a submitted task.
#[derive(Debug)]
pub struct TaskSubmitResp {
    pub task_id: String,
}

/// The ids of the tasks a batch started.
#[derive(Debug)]
pub struct BatchSubmitResp {
    pub task_ids: Vec<String>,
}

/// One entry of a batch submission.
#[derive(Debug)]
pub struct TaskItem {
    pub url: String,
    pub file_name: Option<String>,
    pub force: Option<bool>,
}

/// A batch submission sharing one save directory.
#[derive(Debug)]
pub struct BatchSubmitReq {
    pub tasks: Vec<TaskItem>,
    pub save_dir: String,
}

/// `anyhow::Error`, which API errors carry through unexamined.
#[verifier::external_type_specification]
#[verifier::external_body]
pub struct ExAnyhowError(anyhow::Error);

/// An error an API handler reports to its client.
pub struct ApiError(pub anyhow::Error);

/// What a node says about itself.
#[derive(Debug)]
pub struct SysInfoResp {
    pub node_id: String,
    pub version: String,
    pub os: String,
}

} // verus!
