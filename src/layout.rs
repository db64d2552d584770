use vstd::prelude::*;

use crate::path::{append_name, child_of};

verus! {

// The fixed places of the confined root.

/// `/newroot`, where the confined root is built.
pub open spec fn new_root() -> Seq<u8> {
    seq![47u8, 110, 101, 119, 114, 111, 111, 116]
}

/// `/oldroot`, where the host's root stays until it is detached.
pub open spec fn old_root() -> Seq<u8> {
    seq![47u8, 111, 108, 100, 114, 111, 111, 116]
}

pub open spec fn name_space() -> Seq<u8> {
    seq![115u8, 112, 97, 99, 101]
}

pub open spec fn name_dev() -> Seq<u8> {
    seq![100u8, 101, 118]
}

pub open spec fn name_proc() -> Seq<u8> {
    seq![112u8, 114, 111, 99]
}

pub open spec fn name_tmp() -> Seq<u8> {
    seq![116u8, 109, 112]
}

pub open spec fn name_sys() -> Seq<u8> {
    seq![115u8, 121, 115]
}

pub open spec fn name_shm() -> Seq<u8> {
    seq![115u8, 104, 109]
}

pub open spec fn name_pts() -> Seq<u8> {
    seq![112u8, 116, 115]
}

pub open spec fn name_mqueue() -> Seq<u8> {
    seq![109u8, 113, 117, 101, 117, 101]
}

/// `.shm` beneath the ephemeral storage: what backs shared memory.
pub open spec fn name_shm_backing() -> Seq<u8> {
    seq![46u8, 115, 104, 109]
}

/// `.tmp` beneath the ephemeral storage: what backs the temp directory.
pub open spec fn name_tmp_backing() -> Seq<u8> {
    seq![46u8, 116, 109, 112]
}

/// `/newroot/space`: the ephemeral storage.
pub open spec fn space_dir() -> Seq<u8> {
    child_of(new_root(), name_space())
}

/// `/newroot/dev`.
pub open spec fn dev_dir() -> Seq<u8> {
    child_of(new_root(), name_dev())
}

/// `/newroot/proc`.
pub open spec fn proc_dir() -> Seq<u8> {
    child_of(new_root(), name_proc())
}

/// `/newroot/tmp`.
pub open spec fn tmp_dir() -> Seq<u8> {
    child_of(new_root(), name_tmp())
}

/// `/newroot/dev/shm`.
pub open spec fn shm_dir() -> Seq<u8> {
    child_of(dev_dir(), name_shm())
}

/// `/newroot/dev/pts`.
pub open spec fn pts_dir() -> Seq<u8> {
    child_of(dev_dir(), name_pts())
}

/// `/newroot/dev/mqueue`: the message-queue filesystem, never unmounted.
pub open spec fn mqueue_dir() -> Seq<u8> {
    child_of(dev_dir(), name_mqueue())
}

/// `/newroot/space/.shm`.
pub open spec fn shm_backing() -> Seq<u8> {
    child_of(space_dir(), name_shm_backing())
}

/// `/newroot/space/.tmp`.
pub open spec fn tmp_backing() -> Seq<u8> {
    child_of(space_dir(), name_tmp_backing())
}

/// `/dev` of the host.
pub open spec fn host_dev() -> Seq<u8> {
    seq![47u8] + name_dev()
}

pub fn new_root_path() -> (r: Vec<u8>)
    ensures
        r@ == new_root(),
{
    let r = vec![47u8, 110, 101, 119, 114, 111, 111, 116];
    assert(r@ =~= new_root());
    r
}

pub fn old_root_path() -> (r: Vec<u8>)
    ensures
        r@ == old_root(),
{
    let r = vec![47u8, 111, 108, 100, 114, 111, 111, 116];
    assert(r@ =~= old_root());
    r
}

fn under(base: Vec<u8>, name: Vec<u8>) -> (r: Vec<u8>)
    ensures
        r@ == child_of(base@, name@),
{
    let mut r = base;
    append_name(&mut r, &name);
    r
}

pub fn space_path() -> (r: Vec<u8>)
    ensures
        r@ == space_dir(),
{
    let n = vec![115u8, 112, 97, 99, 101];
    assert(n@ =~= name_space());
    under(new_root_path(), n)
}

pub fn dev_path() -> (r: Vec<u8>)
    ensures
        r@ == dev_dir(),
{
    let n = vec![100u8, 101, 118];
    assert(n@ =~= name_dev());
    under(new_root_path(), n)
}

pub fn proc_path() -> (r: Vec<u8>)
    ensures
        r@ == proc_dir(),
{
    let n = vec![112u8, 114, 111, 99];
    assert(n@ =~= name_proc());
    under(new_root_path(), n)
}

pub fn tmp_path() -> (r: Vec<u8>)
    ensures
        r@ == tmp_dir(),
{
    let n = vec![116u8, 109, 112];
    assert(n@ =~= name_tmp());
    under(new_root_path(), n)
}

pub fn shm_path() -> (r: Vec<u8>)
    ensures
        r@ == shm_dir(),
{
    let n = vec![115u8, 104, 109];
    assert(n@ =~= name_shm());
    under(dev_path(), n)
}

pub fn pts_path() -> (r: Vec<u8>)
    ensures
        r@ == pts_dir(),
{
    let n = vec![112u8, 116, 115];
    assert(n@ =~= name_pts());
    under(dev_path(), n)
}

pub fn mqueue_path() -> (r: Vec<u8>)
    ensures
        r@ == mqueue_dir(),
{
    let n = vec![109u8, 113, 117, 101, 117, 101];
    assert(n@ =~= name_mqueue());
    under(dev_path(), n)
}

pub fn shm_backing_path() -> (r: Vec<u8>)
    ensures
        r@ == shm_backing(),
{
    let n = vec![46u8, 115, 104, 109];
    assert(n@ =~= name_shm_backing());
    under(space_path(), n)
}

pub fn tmp_backing_path() -> (r: Vec<u8>)
    ensures
        r@ == tmp_backing(),
{
    let n = vec![46u8, 116, 109, 112];
    assert(n@ =~= name_tmp_backing());
    under(space_path(), n)
}

pub fn host_dev_path() -> (r: Vec<u8>)
    ensures
        r@ == host_dev(),
{
    let r = vec![47u8, 100, 101, 118];
    assert(r@ =~= host_dev());
    r
}

} // verus!
