# tri_space

Verified integer core of the Tri-Space ambient engine, a granular synthesizer
that feeds parallel reverb, delay and spectral-delay buses.

The signal processing of the engine works on floating-point samples; this
library holds the parts of it that are integer logic, each proved with Verus:

- `config`: engine constants, the navigation and slew modes.
- `slots`: the grain voice allocator (free-id stack and active-voice bitmap),
  with the partition law: a voice handed out was not active, and free stack
  and active set stay a partition of the voices, for every pool size,
  the engine's 102400 voices included.
- `bits`: single-bit lemmas for the bitmap.
- `ring`: the circular buffers of the delay lines, and power-of-two mask
  arithmetic proved equal to arithmetic modulo the buffer length; a delay line
  reads back at lag `d` what was written `d` writes ago.
- `blocks`: render blocks of the audio callback, 64-frame grain tiles and the
  one-second analysis windows, each a partition of its range.
- `taps`: double-buffered convolution taps.
- `dither`: the linear congruential dither generator.
- `grain`: window-table and interpolation indices of a grain voice.

`app/` is the program around the library: audio device, GUI, worker thread,
and the floating-point processors (filters, grain engine, delays, reverb,
convolution), which use the verified parts for their indexing and bookkeeping.
