//! The state of a file upload: empty, in progress, done, or failed.
use vstd::prelude::*;

verus! {

/// A file that finished uploading.
#[derive(Clone, Debug)]
pub struct UploadedFile {
    pub file_name: String,
    pub content: String,
}

#[derive(Clone, Debug)]
pub enum FileUploadState {
    Empty,
    Uploading { file_name: String },
    Done(UploadedFile),
    Failed { file_name: String },
}

impl FileUploadState {
    pub fn is_empty(&self) -> (r: bool)
        ensures
            r == (*self is Empty),
    {
        match self {
            FileUploadState::Empty => true,
            _ => false,
        }
    }

    /// Whether an upload can start now: whenever none is in progress.
    pub fn is_ready(&self) -> (r: bool)
        ensures
            r == !(*self is Uploading),
    {
        match self {
            FileUploadState::Uploading { .. } => false,
            _ => true,
        }
    }

    /// The uploaded file, once the upload is done.
    pub fn file(&self) -> (r: Option<&UploadedFile>)
        ensures
            r == (match *self {
                FileUploadState::Done(f) => Some(&f),
                _ => None,
            }),
    {
        match self {
            FileUploadState::Done(f) => Some(f),
            _ => None,
        }
    }
}

/// A file upload and whether its file was accepted.
#[derive(Clone, Debug)]
pub struct FileUpload {
    pub is_valid: bool,
    pub state: FileUploadState,
}

impl FileUpload {
    /// A new upload, already done with `init` where a file is given.
    pub fn new(init: Option<UploadedFile>) -> (r: FileUpload)
        ensures
            r.is_valid,
            r.state == (match init {
                Some(f) => FileUploadState::Done(f),
                None => FileUploadState::Empty,
            }),
    {
        let state = match init {
            Some(f) => FileUploadState::Done(f),
            None => FileUploadState::Empty,
        };
        FileUpload { is_valid: true, state }
    }

    pub fn is_valid(&self) -> (r: bool)
        ensures
            r == self.is_valid,
    {
        self.is_valid
    }

    pub fn is_empty(&self) -> (r: bool)
        ensures
            r == (self.state is Empty),
    {
        self.state.is_empty()
    }

    /// The name of the file being uploaded, uploaded, or failed.
    pub fn file_name(&self) -> (r: Option<String>)
        ensures
            r == (match self.state {
                FileUploadState::Failed { file_name } => Some(file_name),
                FileUploadState::Uploading { file_name } => Some(file_name),
                FileUploadState::Done(f) => Some(f.file_name),
                FileUploadState::Empty => None,
            }),
    {
        match &self.state {
            FileUploadState::Failed { file_name } => Some(file_name.clone()),
            FileUploadState::Uploading { file_name } => Some(file_name.clone()),
            FileUploadState::Done(f) => Some(f.file_name.clone()),
            FileUploadState::Empty => None,
        }
    }

    pub fn file(&self) -> (r: Option<&UploadedFile>)
        ensures
            r == (match self.state {
                FileUploadState::Done(f) => Some(&f),
                _ => None,
            }),
    {
        self.state.file()
    }

    pub fn is_ready(&self) -> (r: bool)
        ensures
            r == !(self.state is Uploading),
    {
        self.state.is_ready()
    }

    /// Starts an upload if none is in progress, and says whether it did.
    pub fn begin(&mut self, file_name: String) -> (r: bool)
        ensures
            r == !(old(self).state is Uploading),
            r ==> final(self).is_valid && final(self).state == (FileUploadState::Uploading { file_name }),
            !r ==> *final(self) == *old(self),
    {
        if self.is_ready() {
            self.is_valid = true;
            self.state = FileUploadState::Uploading { file_name };
            true
        } else {
            false
        }
    }

    /// Marks the upload in progress as failed; does nothing when none is in progress.
    pub fn abort(&mut self)
        ensures
            final(self).is_valid == old(self).is_valid,
            final(self).state == (match old(self).state {
                FileUploadState::Uploading { file_name } => FileUploadState::Failed { file_name },
                s => s,
            }),
    {
        let name = match &self.state {
            FileUploadState::Uploading { file_name } => file_name.clone(),
            _ => return,
        };
        self.state = FileUploadState::Failed { file_name: name };
    }

    /// Completes the upload in progress with `content`; `accepted` is what checking the
    /// file gave. Does nothing when no upload is in progress.
    pub fn finish(&mut self, content: String, accepted: bool)
        ensures
            match old(self).state {
                FileUploadState::Uploading { file_name } => {
                    &&& final(self).is_valid == accepted
                    &&& final(self).state == FileUploadState::Done(UploadedFile { file_name, content })
                },
                _ => *final(self) == *old(self),
            },
    {
        let name = match &self.state {
            FileUploadState::Uploading { file_name } => file_name.clone(),
            _ => return,
        };
        self.is_valid = accepted;
        self.state = FileUploadState::Done(UploadedFile { file_name: name, content });
    }
}

} // verus!
