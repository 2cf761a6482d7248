//! The socket-descriptor side of the join: the set of inode numbers owned
//! by the target process's open socket descriptors.

use vstd::prelude::*;

verus! {

/// What an unverified reader reports of one open file descriptor: whether
/// the descriptor's target is a socket, and the target's inode number.
#[derive(Clone, Copy, Debug, PartialEq, Eq, Structural)]
pub struct FdInfo {
    pub is_socket: bool,
    pub inode: u64,
}

/// The inodes of a process's open socket descriptors; used only as a
/// membership filter when joining against the connection table.
pub struct SocketInodeSet {
    pub inodes: Vec<u64>,
}

impl View for SocketInodeSet {
    type V = Set<u64>;

    open spec fn view(&self) -> Set<u64> {
        Set::new(|x: u64| self.inodes@.contains(x))
    }
}

impl SocketInodeSet {
    /// The empty set.
    pub fn new() -> (r: Self)
        ensures
            r@ == Set::<u64>::empty(),
    {
        let r = SocketInodeSet { inodes: Vec::new() };
        proof {
            assert(r@ =~= Set::<u64>::empty());
        }
        r
    }

    /// Adds one inode to the set.
    pub fn insert(&mut self, ino: u64)
        ensures
            final(self)@ == old(self)@.insert(ino),
    {
        let ghost s0 = self.inodes@;
        self.inodes.push(ino);
        proof {
            assert forall|x: u64| self.inodes@.contains(x) implies (s0.contains(x) || x
                == ino) by {
                let i = choose|i: int| 0 <= i < self.inodes@.len() && self.inodes@[i] == x;
                if i < s0.len() {
                    assert(s0[i] == x);
                }
            }
            assert forall|x: u64| s0.contains(x) || x == ino implies self.inodes@.contains(
                x,
            ) by {
                if s0.contains(x) {
                    let i = choose|i: int| 0 <= i < s0.len() && s0[i] == x;
                    assert(self.inodes@[i] == x);
                } else {
                    assert(self.inodes@[s0.len() as int] == x);
                }
            }
            assert forall|x: u64| self@.contains(x) == old(self)@.insert(ino).contains(x) by {
                assert(self@.contains(x) == self.inodes@.contains(x));
                assert(old(self)@.contains(x) == s0.contains(x));
                assert(old(self)@.insert(ino).contains(x) == (old(self)@.contains(x) || x == ino));
            }
            assert(self@ =~= old(self)@.insert(ino));
        }
    }

    /// Whether `ino` is in the set.
    pub fn contains(&self, ino: u64) -> (r: bool)
        ensures
            r == self@.contains(ino),
    {
        let mut i: usize = 0;
        while i < self.inodes.len()
            invariant
                i <= self.inodes@.len(),
                forall|j: int| 0 <= j < i ==> self.inodes@[j] != ino,
            decreases self.inodes@.len() - i,
        {
            if self.inodes[i] == ino {
                return true;
            }
            i += 1;
        }
        proof {
            assert(!self.inodes@.contains(ino));
        }
        false
    }
}

/// The set of inode numbers owned by socket descriptors among `fds`.
pub open spec fn spec_socket_inodes(fds: Seq<FdInfo>) -> Set<u64> {
    Set::new(
        |x: u64|
            exists|i: int|
                0 <= i < fds.len() && (#[trigger] fds[i]).is_socket && fds[i].inode == x,
    )
}

/// Collects the inode of every descriptor whose target is a socket;
/// descriptors of other file types contribute nothing.
pub fn collect_socket_inodes(fds: &Vec<FdInfo>) -> (r: SocketInodeSet)
    ensures
        r@ == spec_socket_inodes(fds@),
{
    let mut s = SocketInodeSet::new();
    let mut i: usize = 0;
    while i < fds.len()
        invariant
            i <= fds@.len(),
            forall|x: u64|
                s@.contains(x) <==> exists|j: int|
                    0 <= j < i && (#[trigger] fds@[j]).is_socket && fds@[j].inode == x,
        decreases fds@.len() - i,
    {
        let fd = fds[i];
        if fd.is_socket {
            s.insert(fd.inode);
            proof {
                assert forall|x: u64| s@.contains(x) implies exists|j: int|
                    0 <= j < i + 1 && (#[trigger] fds@[j]).is_socket && fds@[j].inode == x by {
                    if x == fd.inode {
                        assert(fds@[i as int].is_socket && fds@[i as int].inode == x);
                    }
                }
            }
        }
        proof {
            assert forall|x: u64|
                exists|j: int|
                    0 <= j < i + 1 && (#[trigger] fds@[j]).is_socket && fds@[j].inode
                        == x implies s@.contains(x) by {
                let j = choose|j: int|
                    0 <= j < i + 1 && (#[trigger] fds@[j]).is_socket && fds@[j].inode == x;
                if j < i {
                    assert(exists|j2: int|
                        0 <= j2 < i && (#[trigger] fds@[j2]).is_socket && fds@[j2].inode == x);
                }
            }
        }
        i += 1;
    }
    proof {
        assert(s@ =~= spec_socket_inodes(fds@));
    }
    s
}

} // verus!
