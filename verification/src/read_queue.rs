//! Serialises the reads on one connection: the reader passes from slot to
//! slot in the order in which the slots were handed out, so that the next
//! message is not read before the body of the one before it is done.

use vstd::prelude::*;

verus! {

/// The line of slots that wait for one reader.
pub enum ReadQueue<R> {
    /// No slot was handed out yet: the queue holds the reader.
    Head(R),
    /// Slots were handed out.
    Next(Line<R>),
}

/// The state of a queue that has handed out slots.
pub struct Line<R> {
    /// The reader, while no slot holds it.
    pub parked: Option<R>,
    /// How many slots were handed out.
    pub issued: u64,
    /// The number of the slot whose turn it is.
    pub turn: u64,
}

/// A slot in the line: it holds the reader, or waits for its turn.
pub struct QueuedReader<R> {
    reader: Option<R>,
    ticket: u64,
}

impl<R> ReadQueue<R> {
    /// How many slots were handed out.
    pub open spec fn issued(self) -> u64 {
        match self {
            ReadQueue::Head(_) => 0,
            ReadQueue::Next(line) => line.issued,
        }
    }

    /// The number of the slot whose turn it is.
    pub open spec fn turn(self) -> u64 {
        match self {
            ReadQueue::Head(_) => 0,
            ReadQueue::Next(line) => line.turn,
        }
    }

    /// The reader, while the queue holds it.
    pub open spec fn parked(self) -> Option<R> {
        match self {
            ReadQueue::Head(reader) => Some(reader),
            ReadQueue::Next(line) => line.parked,
        }
    }

    /// A queue that holds `reader` and has handed out no slot.
    pub fn new(reader: R) -> (queue: ReadQueue<R>)
        ensures
            queue == ReadQueue::Head(reader),
    {
        ReadQueue::Head(reader)
    }

    /// Hands out the next slot. It takes the reader with it where the queue
    /// holds the reader and every slot before it is done; else it waits.
    pub fn enqueue(&mut self) -> (slot: QueuedReader<R>)
        requires
            old(self).issued() < u64::MAX,
        ensures
            slot.ticket() == old(self).issued(),
            final(self).issued() == old(self).issued() + 1,
            final(self).turn() == old(self).turn(),
            old(self).parked() is Some && old(self).turn() == old(self).issued() ==> {
                &&& slot.reader() == old(self).parked()
                &&& final(self).parked() is None
            },
            !(old(self).parked() is Some && old(self).turn() == old(self).issued()) ==> {
                &&& slot.reader() is None
                &&& final(self).parked() == old(self).parked()
            },
    {
        let mut state = ReadQueue::Next(Line { parked: None, issued: 0, turn: 0 });
        std::mem::swap(self, &mut state);
        let line = match state {
            ReadQueue::Head(reader) => Line { parked: Some(reader), issued: 0, turn: 0 },
            ReadQueue::Next(line) => line,
        };
        let Line { parked, issued, turn } = line;
        if parked.is_some() && turn == issued {
            *self = ReadQueue::Next(Line { parked: None, issued: issued + 1, turn });
            QueuedReader { reader: parked, ticket: issued }
        } else {
            *self = ReadQueue::Next(Line { parked, issued: issued + 1, turn });
            QueuedReader { reader: None, ticket: issued }
        }
    }
}

impl<R> QueuedReader<R> {
    /// The number of this slot in the line.
    pub closed spec fn ticket(self) -> u64 {
        self.ticket
    }

    /// The reader, while this slot holds it.
    pub closed spec fn reader(self) -> Option<R> {
        self.reader
    }

    /// Whether this slot holds the reader.
    pub fn is_current(&self) -> (current: bool)
        ensures
            current == self.reader() is Some,
    {
        self.reader.is_some()
    }

    /// Takes the reader from the queue where it is this slot's turn and the
    /// queue holds the reader. Says whether the slot holds the reader now.
    pub fn acquire(&mut self, queue: &mut ReadQueue<R>) -> (current: bool)
        ensures
            final(self).ticket() == old(self).ticket(),
            final(queue).issued() == old(queue).issued(),
            final(queue).turn() == old(queue).turn(),
            current == final(self).reader() is Some,
            old(self).reader() is None && old(queue).parked() is Some && old(queue).turn()
                == old(self).ticket() ==> {
                &&& final(self).reader() == old(queue).parked()
                &&& final(queue).parked() is None
            },
            !(old(self).reader() is None && old(queue).parked() is Some && old(queue).turn()
                == old(self).ticket()) ==> {
                &&& final(self).reader() == old(self).reader()
                &&& final(queue).parked() == old(queue).parked()
            },
    {
        if self.reader.is_some() {
            return true;
        }
        let mut state = ReadQueue::Next(Line { parked: None, issued: 0, turn: 0 });
        std::mem::swap(queue, &mut state);
        let line = match state {
            ReadQueue::Head(reader) => Line { parked: Some(reader), issued: 0, turn: 0 },
            ReadQueue::Next(line) => line,
        };
        let Line { parked, issued, turn } = line;
        if parked.is_some() && turn == self.ticket {
            self.reader = parked;
            *queue = ReadQueue::Next(Line { parked: None, issued, turn });
            true
        } else {
            *queue = ReadQueue::Next(Line { parked, issued, turn });
            false
        }
    }

    /// Takes the reader out of this slot, to read from it.
    pub fn take(&mut self) -> (reader: Option<R>)
        ensures
            reader == old(self).reader(),
            final(self).reader() is None,
            final(self).ticket() == old(self).ticket(),
    {
        self.reader.take()
    }

    /// Puts the reader back into this slot.
    pub fn restore(&mut self, reader: R)
        ensures
            final(self).reader() == Some(reader),
            final(self).ticket() == old(self).ticket(),
    {
        self.reader = Some(reader);
    }

    /// Gives this slot up. Where it holds the reader, the reader goes back to
    /// the queue and the turn passes to the slot after this one. Where it
    /// waits, and it is its turn, the turn passes on as well. A slot whose
    /// turn has not come is handed back.
    pub fn release(self, queue: &mut ReadQueue<R>) -> (kept: Option<QueuedReader<R>>)
        requires
            self.ticket() < u64::MAX,
        ensures
            final(queue).issued() == old(queue).issued(),
            self.reader() is Some ==> {
                &&& kept is None
                &&& final(queue).parked() == self.reader()
                &&& final(queue).turn() == self.ticket() + 1
            },
            self.reader() is None && old(queue).turn() == self.ticket() ==> {
                &&& kept is None
                &&& final(queue).parked() == old(queue).parked()
                &&& final(queue).turn() == self.ticket() + 1
            },
            self.reader() is None && old(queue).turn() != self.ticket() ==> {
                &&& kept == Some(self)
                &&& final(queue).parked() == old(queue).parked()
                &&& final(queue).turn() == old(queue).turn()
            },
    {
        let mut state = ReadQueue::Next(Line { parked: None, issued: 0, turn: 0 });
        std::mem::swap(queue, &mut state);
        let line = match state {
            ReadQueue::Head(reader) => Line { parked: Some(reader), issued: 0, turn: 0 },
            ReadQueue::Next(line) => line,
        };
        let Line { parked, issued, turn } = line;
        let QueuedReader { reader, ticket } = self;
        if reader.is_some() {
            *queue = ReadQueue::Next(Line { parked: reader, issued, turn: ticket + 1 });
            None
        } else if turn == ticket {
            *queue = ReadQueue::Next(Line { parked, issued, turn: ticket + 1 });
            None
        } else {
            *queue = ReadQueue::Next(Line { parked, issued, turn });
            Some(QueuedReader { reader, ticket })
        }
    }
}

} // verus!
