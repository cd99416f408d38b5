//! Lifecycle requests and the file viewer that collects them while the tabs
//! are drawn.

use crate::buffers::BufferStore;
use crate::buffers::Pair;
use crate::model::Request;
use vstd::prelude::*;

verus! {

/// A request raised while the tabs are drawn, to be applied afterwards.
#[derive(Clone, Debug, PartialEq, Eq)]
pub enum RequestType {
    /// A tab slot was added at this surface index and node index.
    CreateTab(usize, usize),
    /// The tab with this title was closed, or was drawn without a buffer.
    CloseTab(String),
}

impl View for RequestType {
    type V = Request;

    open spec fn view(&self) -> Request {
        match *self {
            RequestType::CreateTab(surface, node) => Request::CreateTab { surface: surface as nat, node: node as nat },
            RequestType::CloseTab(title) => Request::CloseTab { title: title@ },
        }
    }
}

/// The buffer store together with the queue of requests that drawing the
/// tabs has raised and that wait for the next drain.
#[derive(Debug)]
pub struct FileViewer {
    pub requests: Vec<RequestType>,
    pub buffers: BufferStore,
}

impl FileViewer {
    /// The waiting requests, oldest first.
    pub open spec fn queue(&self) -> Seq<Request> {
        self.requests@.map_values(|r: RequestType| r@)
    }

    /// The viewer's invariant is that of its buffer store.
    pub open spec fn wf(&self) -> bool {
        self.buffers.wf()
    }

    /// A viewer without buffers and without waiting requests.
    pub fn new() -> (viewer: FileViewer)
        ensures
            viewer.wf(),
            viewer.queue() == Seq::<Request>::empty(),
            viewer.buffers.pairs() == Seq::<Pair>::empty(),
            viewer.buffers@ == Map::<Seq<char>, Seq<char>>::empty(),
    {
        FileViewer { requests: Vec::new(), buffers: BufferStore::new() }
    }

    /// The text of the tab `title`, for the editing widget to change in
    /// place. A tab without a buffer is out of step with the store: a close
    /// request for it joins the queue, and there is nothing to edit.
    pub fn edit_buffer(&mut self, title: &str) -> (content: Option<&mut String>)
        requires
            old(self).wf(),
        ensures
            content is Some <==> old(self).buffers@.contains_key(title@),
            match content {
                Some(text) => {
                    &&& text@ == old(self).buffers@[title@]
                    &&& final(self).wf()
                    &&& final(self).buffers@ == old(self).buffers@.insert(title@, final(text)@)
                    &&& final(self).requests == old(self).requests
                },
                None => {
                    &&& final(self).buffers == old(self).buffers
                    &&& final(self).queue() == old(self).queue().push(Request::CloseTab { title: title@ })
                },
            },
    {
        match self.buffers.get_mut(title) {
            Some(text) => Some(text),
            None => {
                self.requests.push(RequestType::CloseTab(title.to_owned()));
                None
            },
        }
    }

    /// Notes that a tab slot was added at `surface` and `node`: a create
    /// request joins the queue.
    pub fn on_add(&mut self, surface: usize, node: usize)
        ensures
            final(self).buffers == old(self).buffers,
            final(self).queue() == old(self).queue().push(
                Request::CreateTab { surface: surface as nat, node: node as nat },
            ),
    {
        self.requests.push(RequestType::CreateTab(surface, node));
        assert(self.queue() =~= old(self).queue().push(
            Request::CreateTab { surface: surface as nat, node: node as nat },
        ));
    }

    /// Notes that the user closes the tab `title`: a close request joins the
    /// queue. The answer is always yes: the layout may drop the tab at once.
    pub fn on_close(&mut self, title: &str) -> (proceed: bool)
        ensures
            proceed,
            final(self).buffers == old(self).buffers,
            final(self).queue() == old(self).queue().push(Request::CloseTab { title: title@ }),
    {
        self.requests.push(RequestType::CloseTab(title.to_owned()));
        assert(self.queue() =~= old(self).queue().push(Request::CloseTab { title: title@ }));
        true
    }
}

} // verus!
