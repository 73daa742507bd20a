# rdp_codec

A verified library for the Remote Desktop Protocol: two graphics codecs and the headers of the
protocol's PDUs.

- `clear_codec` decodes ClearCodec bitmap streams into RGBA buffers.
- `rfx_progressive` decodes progressive RemoteFX tiles: it keeps the coefficients of every tile of a
  surface across passes, and paints the tiles that a stream shows.
- `headers` reads and writes the basic security header, the share control and share data headers,
  and the server redirection packet.

Each module states what it does in terms of spec functions over byte sequences, and its laws stand
in `laws.rs`. Larger ones have a file of their own: `rfx_progressive/order.rs` on the order of
decoding and painting, and in `clear_codec` `columns.rs` on what a column shows, `opacity.rs` on
transparency, `rings.rs` on where bars are cached, and `streams.rs` on layers that come one by one.

What is trusted is the behaviour of the cursors of `ironrdp_core`, in `headers/cursor.rs`.

`app/` is ordinary Rust around the library. It connects the progressive decoder with a stream
parser, an entropy decoder and the transforms, and the headers with the traits of `ironrdp_core`.
