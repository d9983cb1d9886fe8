//! The task record: one item of the to-do list.

use vstd::prelude::*;
use vstd::string::StringExecFns;

use crate::date::Date;
use crate::date::DateModel;
use crate::text::decimal;
use crate::text::decimal_string;

verus! {

/// What a task record holds.
pub struct TaskModel {
    pub id: u32,
    pub date: DateModel,
    pub subject: Seq<char>,
    pub body: Seq<char>,
}

impl TaskModel {
    /// The record as it is listed: four lines, each closed by a line feed.
    pub open spec fn rendered(self) -> Seq<char> {
        "ID: "@ + decimal(self.id as nat) + "\nDate: "@ + self.date.iso() + "\nSubject: "@
            + self.subject + "\nBody: "@ + self.body + "\n"@
    }
}

/// What each record of a sequence holds, in the same order.
pub open spec fn models(tasks: Seq<Task>) -> Seq<TaskModel> {
    tasks.map_values(|task: Task| task@)
}

/// One item of the to-do list. A record never changes once it is made.
#[derive(Debug, PartialEq, Eq)]
pub struct Task {
    id: u32,
    date: Date,
    subject: String,
    body: String,
}

impl View for Task {
    type V = TaskModel;

    closed spec fn view(&self) -> TaskModel {
        TaskModel { id: self.id, date: self.date@, subject: self.subject@, body: self.body@ }
    }
}

impl Clone for Task {
    /// A second record that holds the same.
    fn clone(&self) -> (copy: Task)
        ensures
            copy@ == self@,
    {
        Task {
            id: self.id,
            date: self.date,
            subject: self.subject.clone(),
            body: self.body.clone(),
        }
    }
}

impl Task {
    /// The record with this id, date, subject and body.
    pub fn new(id: u32, date: Date, subject: String, body: String) -> (task: Task)
        ensures
            task@ == (TaskModel { id, date: date@, subject: subject@, body: body@ }),
    {
        Task { id, date, subject, body }
    }

    /// The id under which the repository keeps the record.
    pub fn id(&self) -> (id: u32)
        ensures
            id == self@.id,
    {
        self.id
    }

    /// The day the task is for.
    pub fn date(&self) -> (date: Date)
        ensures
            date@ == self@.date,
    {
        self.date
    }

    /// The short text that names the task.
    pub fn subject(&self) -> (subject: &str)
        ensures
            subject@ == self@.subject,
    {
        self.subject.as_str()
    }

    /// The free text of the task.
    pub fn body(&self) -> (body: &str)
        ensures
            body@ == self@.body,
    {
        self.body.as_str()
    }

    /// The record as it is listed: the lines `ID: `, `Date: `, `Subject: ` and
    /// `Body: `, each followed by its value and a line feed.
    pub fn render(&self) -> (text: String)
        ensures
            text@ == self@.rendered(),
    {
        let mut text = String::from_str("ID: ");
        text.append(decimal_string(self.id).as_str());
        text.append("\nDate: ");
        text.append(self.date.iso().as_str());
        text.append("\nSubject: ");
        text.append(self.subject.as_str());
        text.append("\nBody: ");
        text.append(self.body.as_str());
        text.append("\n");
        text
    }
}

} // verus!
