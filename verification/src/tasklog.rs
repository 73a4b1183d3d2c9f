//! The lines that the tasks log.

use crate::resource::{AWSResource, ResourceView};
use vstd::prelude::*;
use vstd::string::StringExecFns;

verus! {

/// How grave a line is.
#[derive(Debug, Clone, Copy, PartialEq, Eq, Structural)]
pub enum Level {
    Info,
    Warn,
    Error,
}

/// The level with this name. Lines of any other name are not logged.
pub fn level(name: &str) -> (level: Option<Level>)
    ensures
        level == Some(Level::Info) <==> name@ == "info"@,
        level == Some(Level::Warn) <==> name@ == "warn"@,
        level == Some(Level::Error) <==> name@ == "error"@,
{
    proof {
        reveal_strlit("info");
        reveal_strlit("warn");
        reveal_strlit("error");
        assert("info"@[0] == 'i' && "warn"@[0] == 'w' && "error"@[0] == 'e');
    }
    let name = name.to_owned();
    if name == "info".to_owned() {
        Some(Level::Info)
    } else if name == "warn".to_owned() {
        Some(Level::Warn)
    } else if name == "error".to_owned() {
        Some(Level::Error)
    } else {
        None
    }
}

/// A line of a task: the brackets, the word between them and the name of the task come as they
/// are to be printed.
pub fn task_line(open: &str, word: &str, task_name: &str, close: &str, message: &str) -> (line:
    String)
    ensures
        line@ == open@ + word@ + " "@ + task_name@ + close@ + " "@ + message@,
{
    let mut line = open.to_owned();
    line.append(word);
    line.append(" ");
    line.append(task_name);
    line.append(close);
    line.append(" ");
    line.append(message);
    line
}

/// The name of the service that a resource belongs to, and of what it is there.
pub open spec fn service(resource: ResourceView) -> Seq<char> {
    match resource {
        ResourceView::Instance(_) => "EC2 Instance"@,
        ResourceView::Table(_) => "DynamoDB Table"@,
        ResourceView::Bucket(_) => "S3 Bucket"@,
    }
}

/// The name of the service that a resource belongs to, and of what it is there.
pub fn service_name(resource: &AWSResource) -> (name: &'static str)
    ensures
        name@ == service(resource@),
        resource is Instance ==> name@ == "EC2 Instance"@,
        resource is Table ==> name@ == "DynamoDB Table"@,
        resource is Bucket ==> name@ == "S3 Bucket"@,
{
    match resource {
        AWSResource::Instance(_) => "EC2 Instance",
        AWSResource::Table(_) => "DynamoDB Table",
        AWSResource::Bucket(_) => "S3 Bucket",
    }
}

/// What a resource is called in a message: its service and its id, both as they are to be printed.
pub fn resource_label(service: &str, id: &str) -> (label: String)
    ensures
        label@ == service@ + " "@ + id@,
{
    let mut label = service.to_owned();
    label.append(" ");
    label.append(id);
    label
}

/// The message that a resource was found that was not shown yet.
pub fn found_message(label: &str) -> (text: String)
    ensures
        text@ == "Found new "@ + label@,
{
    let mut text = "Found new ".to_owned();
    text.append(label);
    text
}

/// The message that a resource was terminated.
pub fn terminated_message(label: &str) -> (text: String)
    ensures
        text@ == "Terminated "@ + label@,
{
    let mut text = "Terminated ".to_owned();
    text.append(label);
    text
}

/// The message that a panel was touched, its id as it is to be printed.
pub fn touched_message(panel: &str) -> (text: String)
    ensures
        text@ == "Received touch event for panel "@ + panel@,
{
    let mut text = "Received touch event for panel ".to_owned();
    text.append(panel);
    text
}

/// The message that a panel is free again, its id as it is to be printed.
pub fn available_message(panel: &str) -> (text: String)
    ensures
        text@ == "Panel "@ + panel@ + " is now available"@,
{
    let mut text = "Panel ".to_owned();
    text.append(panel);
    text.append(" is now available");
    text
}

/// The name of the service is a matter of the service alone, whatever the id or name of the
/// resource.
pub proof fn law_service(text: Seq<char>)
    ensures
        service(ResourceView::Instance(text)) == "EC2 Instance"@,
        service(ResourceView::Table(text)) == "DynamoDB Table"@,
        service(ResourceView::Bucket(text)) == "S3 Bucket"@,
{
}

} // verus!
