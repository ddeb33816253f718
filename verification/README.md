# styx

Core of a media pipeline library, verified with Verus.

- `src/` is the verified library: pixel formats and their layouts, frame
  metadata and plane layouts, buffer pool bookkeeping and counters, a
  bounded FIFO queue, packed frame transforms, raw/Bayer/YUV pixel
  conversions, image repacking, JPEG segment stripping, capture mode and
  control checks, the codec registry and its selection policy, and the
  decisions taken around FFmpeg encoders and decoders (pixel formats, plane
  layouts, DRM PRIME descriptors, context plans, row copies).
- `app/` is the runtime around it: frames that own their bytes, thread-safe
  queue and pool handles, codec objects and their registry, capture sources,
  image-style conversions on frames, and the few computations that need
  floating point.
- `tests/` exercise the library from outside.

## Design notes

- The bounded queue is a `VecDeque` with a capacity and the invariant that
  it never holds more; the lock-free `crossbeam_queue::ArrayQueue` it
  stands for cannot be given a contract here, since a name for what a
  collection holds cannot be generic over the item type. `app/` puts it
  behind a lock for sharing between threads.
- Short lists (plane layouts and buffers of a frame, capture intervals)
  are `Vec`s where a small-vector type with inline storage would do: only
  the storage differs, and `Vec` carries vstd's specification.
- Codec statistics are shared by reference (`Arc<RwLock<..>>` in `app/`)
  rather than by cloning a handle to atomic counters, so every holder sees
  the same counts.
- YUV frames go to `yuvutils_rs` first; where it refuses a frame (its size
  checks fail, or a pitch does not fit in 32 bits) the library's own
  integer conversion produces every pixel, and that output is what the
  contracts state. The values `yuvutils_rs` writes when it accepts depend
  on the SIMD code it picks at run time and are not stated.
- Image conversion takes the library's fast fixed-point path on 64-bit ARM
  and its balanced path elsewhere; `app/` passes the target architecture
  to `preferred_yuv_mode`.
- A FourCC is an enum of the known codes with `Other(u32)` for the rest,
  so its text (`as_str`, `to_string`) comes back as an owned `String`.
