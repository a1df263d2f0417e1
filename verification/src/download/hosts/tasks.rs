//! The tree of files and folders that a plugin finds behind a URL.

use vstd::prelude::*;
use crate::utils::text::text_eq;

verus! {

/// What a plugin found behind a URL.
#[derive(Debug)]
pub struct DownloadTask {
    pub url: String,
    pub task_type: TaskType,
}

/// A file or a folder of files.
#[derive(Debug)]
pub enum TaskType {
    File(FileTask),
    Folder(FolderTask),
}

/// A file to download, under a name that the plugin suggests.
#[derive(Debug)]
pub struct FileTask {
    pub url: String,
    pub file_name: String,
}

/// A folder and what lies in it.
#[derive(Debug)]
pub struct FolderTask {
    pub folder_name: String,
    pub files: Vec<TaskType>,
}

impl DownloadTask {
    /// A task for a URL.
    pub fn new(url: String, task_type: TaskType) -> (r: Self)
        ensures
            r == (DownloadTask { url, task_type }),
    {
        DownloadTask { url, task_type }
    }
}

impl FileTask {
    /// A file behind a URL.
    pub fn new(url: String, file_name: String) -> (r: Self)
        ensures
            r == (FileTask { url, file_name }),
    {
        FileTask { url, file_name }
    }

    /// The name that the plugin suggests.
    pub fn file_name(&self) -> (r: &String)
        ensures
            *r == self.file_name,
    {
        &self.file_name
    }
}

impl FolderTask {
    /// A folder with its contents.
    pub fn new(folder_name: String, files: Vec<TaskType>) -> (r: Self)
        ensures
            r == (FolderTask { folder_name, files }),
    {
        FolderTask { folder_name, files }
    }

    /// The name that the plugin suggests.
    pub fn folder_name(&self) -> (r: &String)
        ensures
            *r == self.folder_name,
    {
        &self.folder_name
    }
}

/// What a task is about.
#[derive(Debug, Clone, Copy, PartialEq, Eq, Structural)]
pub enum TaskKind {
    File,
    Folder,
}

/// What a task is about by the type that it names: a file if it names none.
pub fn task_kind(name: Option<&str>) -> (r: Option<TaskKind>)
    ensures
        r == match name {
            None => Some(TaskKind::File),
            Some(text) => if text@ == "file"@ {
                Some(TaskKind::File)
            } else if text@ == "folder"@ {
                Some(TaskKind::Folder)
            } else {
                None
            },
        },
{
    match name {
        None => Some(TaskKind::File),
        Some(text) => {
            if text_eq(text, "file") {
                Some(TaskKind::File)
            } else if text_eq(text, "folder") {
                Some(TaskKind::Folder)
            } else {
                None
            }
        },
    }
}

} // verus!
