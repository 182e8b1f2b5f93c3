# audio_stream

Building blocks of a microphone-to-speaker audio pipeline, verified with Verus.

- `src/chonk.rs`: `Chonk<T>`, a vector held to a maximum size that hands back
  whatever does not fit (`slurp`, `ploop`, `curtail`, `nom_iter`, ...), with the
  laws that relate its operations.
- `src/mic.rs`: `Normalizer<T>`, which re-chunks a stream of sample chunks of any
  length into chunks of one fixed size, and the laws that show the chunks are
  determined by the samples alone.
- `src/generator.rs`, `src/dummy_streams.rs`: the decisions of generators that
  answer their consumers' requests.
- `src/lib.rs`: `Mic<T>`, a microphone handle.

`app/` holds the audio I/O (cpal), the async and generator plumbing, the
floating-point processing (denoising, FFT, volume) and the channel wrappers.
